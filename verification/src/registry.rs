//! The directory of connected names: each name with the handle of the mailbox
//! that broadcasts reach under it.

use vstd::prelude::*;

verus! {

/// The handle of a mailbox.
pub type MailboxId = usize;

/// One registration, as a mathematical value.
pub struct EntryModel {
    pub name: Seq<char>,
    pub mailbox: int,
}

/// The handles `ids` as mathematical integers.
pub open spec fn handles(ids: Seq<MailboxId>) -> Seq<int> {
    Seq::new(ids.len(), |i: int| ids[i] as int)
}

/// The handle `id`, if there is one, as a mathematical integer.
pub open spec fn handle(id: Option<MailboxId>) -> Option<int> {
    match id {
        Some(id) => Some(id as int),
        None => None,
    }
}

/// A [`Registry`] as a mathematical value: its registrations in the order in
/// which their names first came.
pub struct RegistryModel {
    pub entries: Seq<EntryModel>,
}

impl RegistryModel {
    /// No name is registered twice.
    pub open spec fn wf(self) -> bool {
        forall|i: int, j: int|
            0 <= i < j < self.entries.len() ==> (#[trigger] self.entries[i]).name != (
            #[trigger] self.entries[j]).name
    }

    /// No mailbox is registered under two names.
    pub open spec fn distinct_mailboxes(self) -> bool {
        forall|i: int, j: int|
            0 <= i < j < self.entries.len() ==> (#[trigger] self.entries[i]).mailbox != (
            #[trigger] self.entries[j]).mailbox
    }

    /// The registry without any registration.
    pub open spec fn empty() -> RegistryModel {
        RegistryModel { entries: Seq::empty() }
    }

    /// Whether `name` is registered.
    pub open spec fn has(self, name: Seq<char>) -> bool {
        exists|i: int| 0 <= i < self.entries.len() && (#[trigger] self.entries[i]).name == name
    }

    /// The place of `name` among the registrations, where it is registered.
    pub open spec fn slot(self, name: Seq<char>) -> int {
        choose|i: int| 0 <= i < self.entries.len() && (#[trigger] self.entries[i]).name == name
    }

    /// The mailbox registered under `name`.
    pub open spec fn mailbox_of(self, name: Seq<char>) -> Option<int> {
        if self.has(name) {
            Some(self.entries[self.slot(name)].mailbox)
        } else {
            None
        }
    }

    /// Whether some name is registered with the mailbox `mailbox`.
    pub open spec fn reaches(self, mailbox: int) -> bool {
        exists|i: int|
            0 <= i < self.entries.len() && (#[trigger] self.entries[i]).mailbox == mailbox
    }

    /// The registered names, in order.
    pub open spec fn names(self) -> Seq<Seq<char>> {
        Seq::new(self.entries.len(), |i: int| self.entries[i].name)
    }

    /// The registered mailboxes, in the order of their names.
    pub open spec fn mailboxes(self) -> Seq<int> {
        Seq::new(self.entries.len(), |i: int| self.entries[i].mailbox)
    }

    /// The registry after `name` was registered with `mailbox`: a name that
    /// was registered keeps its place and gets the new mailbox, a new name
    /// comes last.
    pub open spec fn register(self, name: Seq<char>, mailbox: int) -> RegistryModel {
        if self.has(name) {
            RegistryModel {
                entries: self.entries.update(self.slot(name), EntryModel { name, mailbox }),
            }
        } else {
            RegistryModel { entries: self.entries.push(EntryModel { name, mailbox }) }
        }
    }

    /// The registry after `name` was unregistered: without its registration,
    /// or unchanged where it had none.
    pub open spec fn unregister(self, name: Seq<char>) -> RegistryModel {
        if self.has(name) {
            RegistryModel { entries: self.entries.remove(self.slot(name)) }
        } else {
            self
        }
    }
}

/// One registration.
struct Entry {
    name: String,
    mailbox: MailboxId,
}

impl View for Entry {
    type V = EntryModel;

    closed spec fn view(&self) -> EntryModel {
        EntryModel { name: self.name@, mailbox: self.mailbox as int }
    }
}

/// The names that are connected, each with its mailbox. A name is registered
/// once: registering it again replaces its mailbox.
pub struct Registry {
    entries: Vec<Entry>,
}

impl View for Registry {
    type V = RegistryModel;

    closed spec fn view(&self) -> RegistryModel {
        RegistryModel { entries: self.entries.deep_view() }
    }
}

impl DeepView for Entry {
    type V = EntryModel;

    closed spec fn deep_view(&self) -> EntryModel {
        self@
    }
}

impl Registry {
    /// What holds of every registry: no name is registered twice.
    #[verifier::type_invariant]
    pub open spec fn inv(&self) -> bool {
        self@.wf()
    }

    /// A registry without registrations.
    pub fn new() -> (registry: Registry)
        ensures
            registry@ == RegistryModel::empty(),
            registry@.wf(),
    {
        let registry = Registry { entries: Vec::new() };
        assert(registry.entries.deep_view() =~= Seq::empty());
        registry
    }

    /// The place of `name` among the entries.
    fn find(&self, name: &str) -> (found: Option<usize>)
        ensures
            self@.wf(),
            match found {
                Some(i) => self@.has(name@) && self@.slot(name@) == i && i < self.entries.len(),
                None => !self@.has(name@),
            },
    {
        proof {
            use_type_invariant(self);
        }
        let wanted = name.to_owned();
        let mut i: usize = 0;
        while i < self.entries.len()
            invariant
                i <= self.entries.len(),
                wanted@ == name@,
                self@.wf(),
                forall|k: int| 0 <= k < i ==> (#[trigger] self@.entries[k]).name != name@,
            decreases self.entries.len() - i,
        {
            if self.entries[i].name == wanted {
                assert(self@.entries[i as int].name == name@);
                return Some(i);
            }
            i += 1;
        }
        None
    }

    /// Registers `name` with `mailbox`, in place of the mailbox that the name
    /// had, if any. Returns the mailbox that was replaced.
    pub fn register(&mut self, name: String, mailbox: MailboxId) -> (replaced: Option<MailboxId>)
        ensures
            final(self)@ == old(self)@.register(name@, mailbox as int),
            handle(replaced) == old(self)@.mailbox_of(name@),
            old(self)@.wf(),
            final(self)@.wf(),
    {
        let found = self.find(name.as_str());
        let ghost before = self@;
        let ghost entry = EntryModel { name: name@, mailbox: mailbox as int };
        let mut entries = Vec::new();
        std::mem::swap(&mut entries, &mut self.entries);
        assert(entries.deep_view() == before.entries);
        let replaced = match found {
            Some(i) => {
                let old_mailbox = entries[i].mailbox;
                assert(before.entries[i as int] == entries[i as int]@);
                entries.set(i, Entry { name, mailbox });
                assert(entries.deep_view() =~= before.entries.update(i as int, entry));
                Some(old_mailbox)
            },
            None => {
                entries.push(Entry { name, mailbox });
                assert(entries.deep_view() =~= before.entries.push(entry));
                None
            },
        };
        proof {
            let after = RegistryModel { entries: entries.deep_view() };
            assert(after == before.register(name@, mailbox as int));
            assert forall|i: int, j: int| 0 <= i < j < after.entries.len() implies (
            #[trigger] after.entries[i]).name != (#[trigger] after.entries[j]).name by {
                if found is Some {
                    assert(before.entries[i].name != before.entries[j].name);
                } else {
                    if j < before.entries.len() {
                        assert(before.entries[i].name != before.entries[j].name);
                    } else {
                        assert(before.entries[i].name != name@);
                    }
                }
            }
        }
        self.entries = entries;
        replaced
    }

    /// Removes the registration of `name`, if it has one. Returns the mailbox
    /// that was registered under it.
    pub fn unregister(&mut self, name: &str) -> (removed: Option<MailboxId>)
        ensures
            final(self)@ == old(self)@.unregister(name@),
            handle(removed) == old(self)@.mailbox_of(name@),
            !final(self)@.has(name@),
            old(self)@.wf(),
            final(self)@.wf(),
    {
        let found = self.find(name);
        let ghost before = self@;
        match found {
            Some(i) => {
                let mut entries = Vec::new();
                std::mem::swap(&mut entries, &mut self.entries);
                assert(entries.deep_view() == before.entries);
                let entry = entries.remove(i);
                assert(entry@ == before.entries[i as int]);
                proof {
                    let after = RegistryModel { entries: entries.deep_view() };
                    assert(after.entries =~= before.entries.remove(i as int));
                    lemma_unregister(before, name@);
                }
                self.entries = entries;
                Some(entry.mailbox)
            },
            None => None,
        }
    }

    /// The mailbox registered under `name`.
    pub fn lookup(&self, name: &str) -> (mailbox: Option<MailboxId>)
        ensures
            handle(mailbox) == self@.mailbox_of(name@),
    {
        match self.find(name) {
            Some(i) => {
                assert(self@.entries[i as int] == self.entries[i as int]@);
                Some(self.entries[i].mailbox)
            },
            None => None,
        }
    }

    /// The names that are registered at this moment, in the order in which
    /// they first came.
    pub fn snapshot_names(&self) -> (names: Vec<String>)
        ensures
            names.deep_view() == self@.names(),
    {
        let mut names: Vec<String> = Vec::new();
        let mut i: usize = 0;
        while i < self.entries.len()
            invariant
                i <= self.entries.len(),
                names.len() == i,
                forall|k: int| 0 <= k < i ==> (#[trigger] names[k])@ == self.entries[k].name@,
            decreases self.entries.len() - i,
        {
            names.push(self.entries[i].name.clone());
            i += 1;
        }
        assert(names.deep_view() =~= self@.names());
        names
    }

    /// The mailboxes that are registered at this moment, in the order of
    /// their names: what one broadcast reaches.
    pub fn snapshot_mailboxes(&self) -> (mailboxes: Vec<MailboxId>)
        ensures
            handles(mailboxes@) == self@.mailboxes(),
    {
        let mut mailboxes: Vec<MailboxId> = Vec::new();
        let mut i: usize = 0;
        while i < self.entries.len()
            invariant
                i <= self.entries.len(),
                mailboxes.len() == i,
                forall|k: int| 0 <= k < i ==> #[trigger] mailboxes[k] == self.entries[k].mailbox,
            decreases self.entries.len() - i,
        {
            mailboxes.push(self.entries[i].mailbox);
            i += 1;
        }
        assert(handles(mailboxes@) =~= self@.mailboxes());
        mailboxes
    }

    /// How many names are registered.
    pub fn len(&self) -> (n: usize)
        ensures
            n == self@.entries.len(),
    {
        self.entries.len()
    }

    /// Whether no name is registered.
    pub fn is_empty(&self) -> (empty: bool)
        ensures
            empty == (self@.entries.len() == 0),
    {
        self.entries.len() == 0
    }
}

/// What registering does to a registry without duplicates: the name is
/// registered with the new mailbox, every other name is as it was, and the
/// names keep their order, a new one coming last.
pub proof fn lemma_register(registry: RegistryModel, name: Seq<char>, mailbox: int)
    requires
        registry.wf(),
    ensures
        registry.register(name, mailbox).wf(),
        registry.register(name, mailbox).mailbox_of(name) == Some(mailbox),
        forall|other: Seq<char>|
            other != name ==> registry.register(name, mailbox).mailbox_of(other)
                == registry.mailbox_of(other),
        registry.register(name, mailbox).names() == (if registry.has(name) {
            registry.names()
        } else {
            registry.names().push(name)
        }),
{
    let after = registry.register(name, mailbox);
    let at = if registry.has(name) {
        registry.slot(name)
    } else {
        registry.entries.len() as int
    };
    assert(after.entries[at] == EntryModel { name, mailbox });
    assert forall|i: int, j: int| 0 <= i < j < after.entries.len() implies (
    #[trigger] after.entries[i]).name != (#[trigger] after.entries[j]).name by {
        if registry.has(name) {
            assert(registry.entries[i].name != registry.entries[j].name);
        } else if j < registry.entries.len() {
            assert(registry.entries[i].name != registry.entries[j].name);
        } else {
            assert(registry.entries[i].name != name);
        }
    }
    assert(after.has(name));
    let found = after.slot(name);
    if found < at {
        assert(after.entries[found].name != after.entries[at].name);
    } else if at < found {
        assert(after.entries[at].name != after.entries[found].name);
    }
    assert forall|other: Seq<char>| other != name implies after.mailbox_of(other)
        == registry.mailbox_of(other) by {
        if registry.has(other) {
            let k = registry.slot(other);
            assert(after.entries[k] == registry.entries[k]);
            let again = after.slot(other);
            assert(registry.entries[again] == after.entries[again]);
            if again < k {
                assert(registry.entries[again].name != registry.entries[k].name);
            } else if k < again {
                assert(registry.entries[k].name != registry.entries[again].name);
            }
        }
        if after.has(other) {
            let again = after.slot(other);
            assert(registry.entries[again] == after.entries[again]);
        }
    }
    assert(after.names() =~= (if registry.has(name) {
        registry.names()
    } else {
        registry.names().push(name)
    }));
}

/// Which mailboxes a registry reaches after a registration, where no mailbox
/// was registered twice and the new one not at all: the new one, and those it
/// reached before but for the one that the name had.
pub proof fn lemma_register_reaches(registry: RegistryModel, name: Seq<char>, mailbox: int)
    requires
        registry.wf(),
        registry.distinct_mailboxes(),
        !registry.reaches(mailbox),
    ensures
        registry.register(name, mailbox).distinct_mailboxes(),
        forall|id: int| #[trigger]
            registry.register(name, mailbox).reaches(id) == (id == mailbox || (registry.reaches(id)
                && registry.mailbox_of(name) != Some(id))),
{
    let after = registry.register(name, mailbox);
    let at = if registry.has(name) {
        registry.slot(name)
    } else {
        registry.entries.len() as int
    };
    assert(after.entries[at] == EntryModel { name, mailbox });
    assert forall|i: int, j: int| 0 <= i < j < after.entries.len() implies (
    #[trigger] after.entries[i]).mailbox != (#[trigger] after.entries[j]).mailbox by {
        if i != at && j != at {
            assert(registry.entries[i].mailbox != registry.entries[j].mailbox);
        } else if i == at {
            assert(registry.entries[j].mailbox != mailbox);
        } else {
            assert(registry.entries[i].mailbox != mailbox);
        }
    }
    assert forall|id: int| #[trigger]
        after.reaches(id) == (id == mailbox || (registry.reaches(id) && registry.mailbox_of(name)
            != Some(id))) by {
        if after.reaches(id) {
            let k = choose|k: int|
                0 <= k < after.entries.len() && (#[trigger] after.entries[k]).mailbox == id;
            if k != at {
                assert(registry.entries[k].mailbox == id);
                if registry.has(name) {
                    if k < at {
                        assert(registry.entries[k].mailbox != registry.entries[at].mailbox);
                    } else {
                        assert(registry.entries[at].mailbox != registry.entries[k].mailbox);
                    }
                }
            }
        }
        if id != mailbox && registry.reaches(id) && registry.mailbox_of(name) != Some(id) {
            let k = choose|k: int|
                0 <= k < registry.entries.len() && (#[trigger] registry.entries[k]).mailbox == id;
            assert(after.entries[k] == registry.entries[k]);
        }
    }
}

/// Which mailboxes a registry reaches after a name was unregistered, where no
/// mailbox was registered twice: those it reached before but for the one that
/// the name had.
pub proof fn lemma_unregister_reaches(registry: RegistryModel, name: Seq<char>)
    requires
        registry.wf(),
        registry.distinct_mailboxes(),
    ensures
        registry.unregister(name).distinct_mailboxes(),
        forall|id: int| #[trigger]
            registry.unregister(name).reaches(id) == (registry.reaches(id) && registry.mailbox_of(
                name,
            ) != Some(id)),
        registry.unregister(name).names() == (if registry.has(name) {
            registry.names().remove(registry.slot(name))
        } else {
            registry.names()
        }),
{
    let after = registry.unregister(name);
    if registry.has(name) {
        let at = registry.slot(name);
        assert forall|i: int, j: int| 0 <= i < j < after.entries.len() implies (
        #[trigger] after.entries[i]).mailbox != (#[trigger] after.entries[j]).mailbox by {
            let a = if i < at { i } else { i + 1 };
            let b = if j < at { j } else { j + 1 };
            assert(registry.entries[a].mailbox != registry.entries[b].mailbox);
        }
        assert forall|id: int| #[trigger]
            after.reaches(id) == (registry.reaches(id) && registry.mailbox_of(name) != Some(
                id,
            )) by {
            if after.reaches(id) {
                let k = choose|k: int|
                    0 <= k < after.entries.len() && (#[trigger] after.entries[k]).mailbox == id;
                let origin = if k < at { k } else { k + 1 };
                assert(registry.entries[origin].mailbox == id);
                if origin < at {
                    assert(registry.entries[origin].mailbox != registry.entries[at].mailbox);
                } else {
                    assert(registry.entries[at].mailbox != registry.entries[origin].mailbox);
                }
            }
            if registry.reaches(id) && registry.mailbox_of(name) != Some(id) {
                let k = choose|k: int|
                    0 <= k < registry.entries.len() && (#[trigger] registry.entries[k]).mailbox
                        == id;
                let moved = if k < at { k } else { k - 1 };
                assert(after.entries[moved] == registry.entries[k]);
            }
        }
        assert(after.names() =~= registry.names().remove(at));
    }
}

/// A registry without duplicates stays without them when a name is
/// unregistered, and the name is then registered no more.
pub proof fn lemma_unregister(registry: RegistryModel, name: Seq<char>)
    requires
        registry.wf(),
    ensures
        registry.unregister(name).wf(),
        !registry.unregister(name).has(name),
        forall|other: Seq<char>|
            other != name ==> registry.unregister(name).has(other) == registry.has(other),
        forall|other: Seq<char>|
            other != name ==> registry.unregister(name).mailbox_of(other) == registry.mailbox_of(
                other,
            ),
{
    let after = registry.unregister(name);
    if registry.has(name) {
        let at = registry.slot(name);
        assert forall|i: int| 0 <= i < after.entries.len() implies (
        #[trigger] after.entries[i]).name != name by {
            if i < at {
                assert(registry.entries[i].name != registry.entries[at].name);
            } else {
                assert(registry.entries[at].name != registry.entries[i + 1].name);
            }
        }
        assert forall|other: Seq<char>| other != name implies after.has(other) == registry.has(
            other,
        ) && after.mailbox_of(other) == registry.mailbox_of(other) by {
            if registry.has(other) {
                let k = registry.slot(other);
                let moved = if k < at { k } else { k - 1 };
                assert(after.entries[moved] == registry.entries[k]);
                let found = after.slot(other);
                let origin = if found < at { found } else { found + 1 };
                assert(registry.entries[origin] == after.entries[found]);
                if origin < k {
                    assert(registry.entries[origin].name != registry.entries[k].name);
                } else if k < origin {
                    assert(registry.entries[k].name != registry.entries[origin].name);
                }
            }
            if after.has(other) {
                let found = after.slot(other);
                let origin = if found < at { found } else { found + 1 };
                assert(registry.entries[origin] == after.entries[found]);
            }
        }
    }
}


/// A name is registered exactly when it is among the names of a snapshot.
pub proof fn lemma_names(registry: RegistryModel, name: Seq<char>)
    ensures
        registry.names().contains(name) == registry.has(name),
{
    if registry.has(name) {
        let at = registry.slot(name);
        assert(registry.names()[at] == name);
    }
    if registry.names().contains(name) {
        let at = choose|i: int| 0 <= i < registry.names().len() && registry.names()[i] == name;
        assert(registry.entries[at].name == name);
    }
}

/// A name that was registered and then unregistered is not among the names
/// of a snapshot, whatever was registered before.
pub proof fn law_unregistered_is_gone(registry: RegistryModel, name: Seq<char>, mailbox: int)
    requires
        registry.wf(),
    ensures
        !registry.register(name, mailbox).unregister(name).has(name),
        !registry.register(name, mailbox).unregister(name).names().contains(name),
{
    lemma_register(registry, name, mailbox);
    let registered = registry.register(name, mailbox);
    lemma_unregister(registered, name);
    lemma_names(registered.unregister(name), name);
}

/// The last registration of a name wins: after two registrations the name
/// has the second mailbox, and one unregistration leaves the registry without
/// the name.
pub proof fn law_last_registration_wins(
    registry: RegistryModel,
    name: Seq<char>,
    first: int,
    second: int,
)
    requires
        registry.wf(),
    ensures
        registry.register(name, first).register(name, second).mailbox_of(name) == Some(second),
        registry.register(name, first).register(name, second).names() == registry.register(
            name,
            first,
        ).names(),
        !registry.register(name, first).register(name, second).unregister(name).has(name),
        !registry.register(name, first).register(name, second).unregister(name).names().contains(
            name,
        ),
{
    lemma_register(registry, name, first);
    let once = registry.register(name, first);
    lemma_register(once, name, second);
    let twice = once.register(name, second);
    lemma_unregister(twice, name);
    lemma_names(twice.unregister(name), name);
    assert(once.has(name));
}

} // verus!
