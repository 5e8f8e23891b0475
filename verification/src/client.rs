//! The state of a client, and how it changes.

use vstd::prelude::*;

use crate::contacts::{self, ContactMap};
use crate::error::Error;
use crate::events::{Contact, EventPayload, EventType, MeshCoreEvent};
use crate::hex;
use crate::text::{self, append_decimal};

verus! {

/// What a client knows: the contents of a `MeshCore`.
#[verifier::ext_equal]
pub struct ClientState<D, S, J, U> {
    /// The cached contacts by key.
    pub contacts: Map<Seq<char>, Contact<D>>,
    /// The cached self-description of the device.
    pub self_info: Option<S>,
    /// The cached device clock.
    pub device_time: Option<u32>,
    /// Whether the contact cache may be out of date.
    pub contacts_dirty: bool,
    /// Whether the link is up.
    pub connected: bool,
    /// The subscription that fetches messages, if there is one.
    pub auto_fetch_sub: Option<U>,
    /// The background tasks, first to last.
    pub tasks: Seq<J>,
}

impl<D, S, J, U> ClientState<D, S, J, U> {
    /// A client that has not been connected yet.
    pub open spec fn initial() -> Self {
        ClientState {
            contacts: Map::empty(),
            self_info: None,
            device_time: None,
            contacts_dirty: true,
            connected: false,
            auto_fetch_sub: None,
            tasks: Seq::empty(),
        }
    }

    /// The client once the link is up and served by two tasks.
    pub open spec fn after_connect(self, write_task: J, read_task: J) -> Self {
        ClientState { tasks: self.tasks.push(write_task).push(read_task), connected: true, ..self }
    }

    /// The client once it has cached a whole contact list.
    pub open spec fn after_contacts(self, contacts: Seq<Contact<D>>) -> Self {
        ClientState { contacts: contacts::indexed(contacts), contacts_dirty: false, ..self }
    }

    /// The client once it has seen `event`.
    pub open spec fn after_event<X>(self, event: MeshCoreEvent<D, S, X>) -> Self {
        match (event.event_type, event.payload) {
            (EventType::Contacts, EventPayload::Contacts(contacts)) => self.after_contacts(contacts@),
            (EventType::SelfInfo, EventPayload::SelfInfo(info)) => ClientState {
                self_info: Some(info),
                ..self
            },
            (EventType::CurrentTime, EventPayload::Time(time)) => ClientState {
                device_time: Some(time),
                ..self
            },
            (EventType::NewContact, EventPayload::Contact(contact)) => ClientState {
                contacts: self.contacts.insert(contacts::contact_key(contact), contact),
                ..self
            },
            _ => self,
        }
    }

    /// The client once the link is gone.
    pub open spec fn after_loss(self) -> Self {
        ClientState { connected: false, ..self }
    }

    /// The client once it has been disconnected.
    pub open spec fn after_disconnect(self) -> Self {
        ClientState { connected: false, tasks: Seq::empty(), ..self }
    }

    /// Whether the link, if it is up, has a task to write to it and one to read
    /// from it.
    pub open spec fn served(self) -> bool {
        self.connected ==> self.tasks.len() >= 2
    }

    /// Whether two clients have the same things cached.
    pub open spec fn same_caches(self, other: Self) -> bool {
        &&& self.contacts == other.contacts
        &&& self.self_info == other.self_info
        &&& self.device_time == other.device_time
        &&& self.contacts_dirty == other.contacts_dirty
    }

    /// The client with `sub` fetching messages, or no subscription.
    pub open spec fn with_auto_fetch(self, sub: Option<U>) -> Self {
        ClientState { auto_fetch_sub: sub, ..self }
    }
}

/// The kind of event that sets off the automatic fetching of messages.
pub const AUTO_FETCH_EVENT: EventType = EventType::MessagesWaiting;

/// What `ensure_contacts` asks for.
#[derive(Clone, Copy, Debug, PartialEq, Eq, Structural)]
pub enum ContactsStep {
    /// The cache is up to date: nothing is to be done.
    Ready,
    /// Fetch the contacts that have changed since this time, and hand them to
    /// `store_contacts`.
    Fetch(u32),
}

/// The state of a client of a MeshCore device.
///
/// `D` is the part of a contact record that the client only passes on, `S` the
/// self-description of a device, `J` a handle of a background task and `U` a
/// subscription to events.
pub struct MeshCore<D, S, J, U> {
    /// Contact cache.
    contacts: ContactMap<D>,
    /// Cached self-description of the device.
    self_info: Option<S>,
    /// Cached device clock.
    device_time: Option<u32>,
    /// Whether the contact cache may be out of date.
    contacts_dirty: bool,
    /// Whether the link is up.
    connected: bool,
    /// The subscription that fetches messages, if there is one.
    auto_fetch_sub: Option<U>,
    /// Handles of the background tasks.
    tasks: Vec<J>,
}

impl<D, S, J, U> View for MeshCore<D, S, J, U> {
    type V = ClientState<D, S, J, U>;

    closed spec fn view(&self) -> ClientState<D, S, J, U> {
        ClientState {
            contacts: self.contacts@,
            self_info: self.self_info,
            device_time: self.device_time,
            contacts_dirty: self.contacts_dirty,
            connected: self.connected,
            auto_fetch_sub: self.auto_fetch_sub,
            tasks: self.tasks@,
        }
    }
}

/// The text of the error for a serial port that does not open.
pub open spec fn serial_failure(reason: Seq<char>) -> Seq<char> {
    "Failed to open serial port: "@ + reason
}

/// The text form of a TCP address.
pub open spec fn tcp_target(host: Seq<char>, port: u16) -> Seq<char> {
    host + ":"@ + text::decimal(port as nat)
}

/// The text of the error for a TCP connection that is not made.
pub open spec fn tcp_failure(host: Seq<char>, port: u16, reason: Seq<char>) -> Seq<char> {
    "Failed to connect to "@ + tcp_target(host, port) + ": "@ + reason
}

/// The address to connect to: host, colon, port.
pub fn tcp_address(host: &str, port: u16) -> (address: String)
    ensures
        address@ == tcp_target(host@, port),
        address@ == host@ + ":"@ + text::decimal(port as nat),
{
    let mut address: String = host.to_owned();
    address.append(":");
    append_decimal(&mut address, port);
    address
}

/// Whether an answer to a request for a message calls for another request.
pub open spec fn calls_for_more<M, E>(fetched: Result<Option<M>, E>) -> bool {
    fetched matches Ok(message) && message is Some
}

/// What is to be done so that the contacts are loaded.
pub open spec fn contacts_step(dirty: bool) -> ContactsStep {
    if dirty {
        ContactsStep::Fetch(0)
    } else {
        ContactsStep::Ready
    }
}

/// Whether a client in the state `before` may conclude an attempt to connect with
/// `outcome` in the state `after`, where `failure` is what a failure is told as.
pub open spec fn concludes<D, S, J, U>(
    before: ClientState<D, S, J, U>,
    opened: Result<(J, J), &str>,
    failure: Seq<char>,
    outcome: Result<(), Error>,
    after: ClientState<D, S, J, U>,
) -> bool {
    match opened {
        Ok((write_task, read_task)) => {
            &&& outcome is Ok
            &&& after == before.after_connect(write_task, read_task)
        },
        Err(_) => {
            &&& outcome matches Err(Error::Connection(message))
            &&& message@ == failure
            &&& after == before
        },
    }
}

/// Whether storing what was fetched takes a client from `before` to `after` and
/// answers with `outcome`.
pub open spec fn stores<D, S, J, U, E>(
    before: ClientState<D, S, J, U>,
    fetched: Result<Vec<Contact<D>>, E>,
    outcome: Result<(), E>,
    after: ClientState<D, S, J, U>,
) -> bool {
    match fetched {
        Ok(contacts) => outcome is Ok && after == before.after_contacts(contacts@),
        Err(error) => outcome == Err::<(), E>(error) && after == before,
    }
}

/// Whether disconnecting takes a client from `before` to `after` and hands out
/// these tasks and this event.
pub open spec fn tears_down<D, S, J, U, X>(
    before: ClientState<D, S, J, U>,
    tasks: Seq<J>,
    event: MeshCoreEvent<D, S, X>,
    after: ClientState<D, S, J, U>,
) -> bool {
    &&& after == before.after_disconnect()
    &&& tasks == before.tasks
    &&& event == disconnected_event::<D, S, X>()
}

/// Whether stopping to fetch messages takes a client from `before` to `after` and
/// hands out this subscription.
pub open spec fn stops_fetching<D, S, J, U>(
    before: ClientState<D, S, J, U>,
    sub: Option<U>,
    after: ClientState<D, S, J, U>,
) -> bool {
    sub == before.auto_fetch_sub && after == before.with_auto_fetch(None)
}

/// Whether another message is to be fetched after one request for a message was
/// answered with `fetched`: only after a message, not when there is none left
/// and not after an error.
pub fn fetch_again<M, E>(fetched: &Result<Option<M>, E>) -> (again: bool)
    ensures
        again == calls_for_more(*fetched),
        again <==> (fetched matches Ok(message) && message is Some),
{
    match fetched {
        Ok(Some(_)) => true,
        Ok(None) => false,
        Err(_) => false,
    }
}

impl<D, S, J, U> MeshCore<D, S, J, U> {
    /// The contact cache is in order.
    pub closed spec fn wf(&self) -> bool {
        self.contacts.wf()
    }

    /// Makes the state of a client that is not connected yet.
    pub fn new() -> (client: Self)
        ensures
            client.wf(),
            client@ == ClientState::<D, S, J, U>::initial(),
            client@.contacts == Map::<Seq<char>, Contact<D>>::empty(),
            client@.self_info is None,
            client@.device_time is None,
            client@.contacts_dirty,
            !client@.connected,
            client@.auto_fetch_sub is None,
            client@.tasks.len() == 0,
    {
        let client: Self = MeshCore {
            contacts: ContactMap::new(),
            self_info: None,
            device_time: None,
            contacts_dirty: true,
            connected: false,
            auto_fetch_sub: None,
            tasks: Vec::new(),
        };
        assert(client@ =~= ClientState::initial());
        client
    }

    /// Records that the link is served by the two tasks, and that it is up.
    fn attach(&mut self, write_task: J, read_task: J)
        requires
            old(self).wf(),
        ensures
            final(self).wf(),
            final(self)@ == old(self)@.after_connect(write_task, read_task),
            final(self)@.tasks == old(self)@.tasks + seq![write_task, read_task],
    {
        self.tasks.push(write_task);
        self.tasks.push(read_task);
        self.connected = true;
        assert(self@.tasks =~= old(self)@.tasks + seq![write_task, read_task]);
    }

    /// Concludes the attempt to connect via a serial port. `opened` holds the
    /// tasks that write to and read from the port, or why it did not open.
    pub fn serial(&mut self, opened: Result<(J, J), &str>) -> (outcome: Result<(), Error>)
        requires
            old(self).wf(),
        ensures
            final(self).wf(),
            concludes(old(self)@, opened, serial_failure(opened->Err_0@), outcome, final(self)@),
            match opened {
                Ok((write_task, read_task)) => {
                    &&& outcome is Ok
                    &&& final(self)@ == old(self)@.after_connect(write_task, read_task)
                    &&& final(self)@.connected
                    &&& final(self)@.tasks == old(self)@.tasks + seq![write_task, read_task]
                    &&& final(self)@.contacts == old(self)@.contacts
                    &&& final(self)@.self_info == old(self)@.self_info
                    &&& final(self)@.device_time == old(self)@.device_time
                    &&& final(self)@.contacts_dirty == old(self)@.contacts_dirty
                    &&& final(self)@.auto_fetch_sub == old(self)@.auto_fetch_sub
                },
                Err(reason) => {
                    &&& outcome matches Err(Error::Connection(message))
                    &&& message@ == serial_failure(reason@)
                    &&& message@ == "Failed to open serial port: "@ + reason@
                    &&& final(self)@ == old(self)@
                },
            },
    {
        match opened {
            Ok((write_task, read_task)) => {
                self.attach(write_task, read_task);
                Ok(())
            },
            Err(reason) => {
                let mut message: String = "Failed to open serial port: ".to_owned();
                message.append(reason);
                Err(Error::connection(message))
            },
        }
    }

    /// Concludes the attempt to connect via TCP. `opened` holds the tasks that
    /// write to and read from the stream, or why there is none.
    pub fn tcp(&mut self, host: &str, port: u16, opened: Result<(J, J), &str>) -> (outcome: Result<(), Error>)
        requires
            old(self).wf(),
        ensures
            final(self).wf(),
            concludes(old(self)@, opened, tcp_failure(host@, port, opened->Err_0@), outcome, final(self)@),
            match opened {
                Ok((write_task, read_task)) => {
                    &&& outcome is Ok
                    &&& final(self)@ == old(self)@.after_connect(write_task, read_task)
                    &&& final(self)@.connected
                    &&& final(self)@.tasks == old(self)@.tasks + seq![write_task, read_task]
                    &&& final(self)@.contacts == old(self)@.contacts
                    &&& final(self)@.self_info == old(self)@.self_info
                    &&& final(self)@.device_time == old(self)@.device_time
                    &&& final(self)@.contacts_dirty == old(self)@.contacts_dirty
                    &&& final(self)@.auto_fetch_sub == old(self)@.auto_fetch_sub
                },
                Err(reason) => {
                    &&& outcome matches Err(Error::Connection(message))
                    &&& message@ == tcp_failure(host@, port, reason@)
                    &&& message@ == "Failed to connect to "@ + host@ + ":"@ + text::decimal(port as nat)
                        + ": "@ + reason@
                    &&& final(self)@ == old(self)@
                },
            },
    {
        match opened {
            Ok((write_task, read_task)) => {
                self.attach(write_task, read_task);
                Ok(())
            },
            Err(reason) => {
                let mut message: String = "Failed to connect to ".to_owned();
                message.append(tcp_address(host, port).as_str());
                message.append(": ");
                message.append(reason);
                assert(message@ =~= "Failed to connect to "@ + host@ + ":"@ + text::decimal(port as nat)
                    + ": "@ + reason@);
                Err(Error::connection(message))
            },
        }
    }

    /// The kinds of events that the caches are kept up to date with, to be handed
    /// to `handle_event`.
    pub fn setup_event_handlers(&self) -> (kinds: Vec<EventType>)
        ensures
            kinds@ == handled_kinds(),
            kinds@ == seq![
                EventType::Contacts,
                EventType::SelfInfo,
                EventType::CurrentTime,
                EventType::NewContact,
            ],
    {
        let mut kinds: Vec<EventType> = Vec::new();
        kinds.push(EventType::Contacts);
        kinds.push(EventType::SelfInfo);
        kinds.push(EventType::CurrentTime);
        kinds.push(EventType::NewContact);
        assert(kinds@ =~= handled_kinds());
        kinds
    }

    /// Updates the caches with an event. An event whose content does not fit its
    /// kind changes nothing.
    pub fn handle_event<X>(&mut self, event: MeshCoreEvent<D, S, X>)
        requires
            old(self).wf(),
        ensures
            final(self).wf(),
            final(self)@ == old(self)@.after_event(event),
            match (event.event_type, event.payload) {
                (EventType::Contacts, EventPayload::Contacts(contacts)) => {
                    &&& !final(self)@.contacts_dirty
                    &&& forall|i: int|
                        0 <= i < contacts@.len() && (forall|j: int|
                            i < j < contacts@.len() ==> (#[trigger] contacts@[j]).public_key@
                                != contacts@[i].public_key@) ==> {
                            let key = hex::hex((#[trigger] contacts@[i]).public_key@);
                            final(self)@.contacts.dom().contains(key) && final(self)@.contacts[key]
                                == contacts@[i]
                        }
                    &&& forall|key: Seq<char>| #[trigger]
                        final(self)@.contacts.dom().contains(key) ==> contacts@.contains(
                            final(self)@.contacts[key],
                        )
                    &&& final(self)@.self_info == old(self)@.self_info
                    &&& final(self)@.device_time == old(self)@.device_time
                    &&& final(self)@.connected == old(self)@.connected
                    &&& final(self)@.auto_fetch_sub == old(self)@.auto_fetch_sub
                    &&& final(self)@.tasks == old(self)@.tasks
                },
                (EventType::SelfInfo, EventPayload::SelfInfo(info)) => {
                    &&& final(self)@.self_info == Some(info)
                    &&& final(self)@.contacts == old(self)@.contacts
                    &&& final(self)@.device_time == old(self)@.device_time
                    &&& final(self)@.contacts_dirty == old(self)@.contacts_dirty
                    &&& final(self)@.connected == old(self)@.connected
                    &&& final(self)@.auto_fetch_sub == old(self)@.auto_fetch_sub
                    &&& final(self)@.tasks == old(self)@.tasks
                },
                (EventType::CurrentTime, EventPayload::Time(time)) => {
                    &&& final(self)@.device_time == Some(time)
                    &&& final(self)@.contacts == old(self)@.contacts
                    &&& final(self)@.self_info == old(self)@.self_info
                    &&& final(self)@.contacts_dirty == old(self)@.contacts_dirty
                    &&& final(self)@.connected == old(self)@.connected
                    &&& final(self)@.auto_fetch_sub == old(self)@.auto_fetch_sub
                    &&& final(self)@.tasks == old(self)@.tasks
                },
                (EventType::NewContact, EventPayload::Contact(contact)) => {
                    &&& final(self)@.contacts == old(self)@.contacts.insert(
                        hex::hex(contact.public_key@),
                        contact,
                    )
                    &&& final(self)@.self_info == old(self)@.self_info
                    &&& final(self)@.device_time == old(self)@.device_time
                    &&& final(self)@.contacts_dirty == old(self)@.contacts_dirty
                    &&& final(self)@.connected == old(self)@.connected
                    &&& final(self)@.auto_fetch_sub == old(self)@.auto_fetch_sub
                    &&& final(self)@.tasks == old(self)@.tasks
                },
                _ => final(self)@ == old(self)@,
            },
    {
        match event.event_type {
            EventType::Contacts => {
                if let EventPayload::Contacts(contacts) = event.payload {
                    self.contacts.replace_all(contacts);
                    self.contacts_dirty = false;
                }
            },
            EventType::SelfInfo => {
                if let EventPayload::SelfInfo(info) = event.payload {
                    self.self_info = Some(info);
                }
            },
            EventType::CurrentTime => {
                if let EventPayload::Time(time) = event.payload {
                    self.device_time = Some(time);
                }
            },
            EventType::NewContact => {
                if let EventPayload::Contact(contact) = event.payload {
                    self.contacts.insert(contact);
                }
            },
            _ => {},
        }
    }

    /// Whether the link is up.
    pub fn is_connected(&self) -> (connected: bool)
        ensures
            connected == self@.connected,
    {
        self.connected
    }

    /// The cached contacts.
    pub fn contacts(&self) -> (contacts: &ContactMap<D>)
        requires
            self.wf(),
        ensures
            contacts.wf(),
            contacts@ == self@.contacts,
    {
        &self.contacts
    }

    /// The cached self-description of the device.
    pub fn self_info(&self) -> (info: Option<&S>)
        ensures
            match info {
                Some(known) => self@.self_info == Some(*known),
                None => self@.self_info is None,
            },
    {
        self.self_info.as_ref()
    }

    /// The cached device clock.
    pub fn device_time(&self) -> (time: Option<u32>)
        ensures
            time == self@.device_time,
    {
        self.device_time
    }

    /// Whether the contact cache may be out of date.
    pub fn contacts_dirty(&self) -> (dirty: bool)
        ensures
            dirty == self@.contacts_dirty,
    {
        self.contacts_dirty
    }

    /// A cached contact by its name, in any mix of ASCII cases. Where several contacts
    /// have it, it may be any of them.
    pub fn get_contact_by_name(&self, name: &str) -> (contact: Option<&Contact<D>>)
        requires
            self.wf(),
        ensures
            contacts::answers_name(self@.contacts, name@, contact),
            contact matches Some(found) ==> self@.contacts.contains_value(*found),
            contact matches Some(found) ==> {
                &&& found.adv_name@.len() == name@.len()
                &&& forall|i: int|
                    0 <= i < name@.len() ==> {
                        ||| #[trigger] found.adv_name@[i] == name@[i]
                        ||| 65 <= found.adv_name@[i] as int <= 90 && name@[i] as int
                            == found.adv_name@[i] as int + 32
                        ||| 65 <= name@[i] as int <= 90 && found.adv_name@[i] as int
                            == name@[i] as int + 32
                    }
            },
            contact is None ==> forall|key: Seq<char>| #[trigger]
                self@.contacts.dom().contains(key) ==> !(self@.contacts[key].adv_name@.len() == name@.len()
                    && forall|i: int|
                    0 <= i < name@.len() ==> {
                        ||| #[trigger] self@.contacts[key].adv_name@[i] == name@[i]
                        ||| 65 <= self@.contacts[key].adv_name@[i] as int <= 90 && name@[i] as int
                            == self@.contacts[key].adv_name@[i] as int + 32
                        ||| 65 <= name@[i] as int <= 90 && self@.contacts[key].adv_name@[i] as int
                            == name@[i] as int + 32
                    }),
    {
        self.contacts.find_by_name(name)
    }

    /// A cached contact by the beginning of its public key. Where several keys begin with it, it may
    /// be the contact of any of them.
    pub fn get_contact_by_prefix(&self, prefix: &[u8]) -> (contact: Option<&Contact<D>>)
        requires
            self.wf(),
        ensures
            contacts::answers_prefix(self@.contacts, prefix@, contact),
            contact matches Some(found) ==> self@.contacts.contains_value(*found),
            contact matches Some(found) ==> {
                &&& prefix@.len() <= found.public_key@.len()
                &&& forall|i: int| 0 <= i < prefix@.len() ==> #[trigger] found.public_key@[i] == prefix@[i]
            },
            contact is None ==> forall|key: Seq<char>| #[trigger]
                self@.contacts.dom().contains(key) ==> !(prefix@.len() <= self@.contacts[key].public_key@.len()
                    && forall|i: int|
                    0 <= i < prefix@.len() ==> #[trigger] self@.contacts[key].public_key@[i] == prefix@[i]),
    {
        self.contacts.find_by_prefix(prefix)
    }

    /// Says what is to be done so that the contacts are loaded: nothing, unless
    /// the cache is dirty, and then to fetch all of them.
    pub fn ensure_contacts(&self) -> (step: ContactsStep)
        ensures
            step == contacts_step(self@.contacts_dirty),
            step == (if self@.contacts_dirty {
                ContactsStep::Fetch(0)
            } else {
                ContactsStep::Ready
            }),
    {
        if self.contacts_dirty {
            ContactsStep::Fetch(0)
        } else {
            ContactsStep::Ready
        }
    }

    /// Caches fetched contacts in place of those known so far. If they could not
    /// be fetched, nothing changes and the error is handed on.
    pub fn store_contacts<E>(&mut self, fetched: Result<Vec<Contact<D>>, E>) -> (outcome: Result<(), E>)
        requires
            old(self).wf(),
        ensures
            final(self).wf(),
            stores(old(self)@, fetched, outcome, final(self)@),
            match fetched {
                Ok(contacts) => {
                    &&& outcome is Ok
                    &&& final(self)@ == old(self)@.after_contacts(contacts@)
                    &&& !final(self)@.contacts_dirty
                    &&& forall|i: int|
                        0 <= i < contacts@.len() && (forall|j: int|
                            i < j < contacts@.len() ==> (#[trigger] contacts@[j]).public_key@
                                != contacts@[i].public_key@) ==> {
                            let key = hex::hex((#[trigger] contacts@[i]).public_key@);
                            final(self)@.contacts.dom().contains(key) && final(self)@.contacts[key]
                                == contacts@[i]
                        }
                    &&& forall|key: Seq<char>| #[trigger]
                        final(self)@.contacts.dom().contains(key) ==> contacts@.contains(
                            final(self)@.contacts[key],
                        )
                    &&& final(self)@.self_info == old(self)@.self_info
                    &&& final(self)@.device_time == old(self)@.device_time
                    &&& final(self)@.connected == old(self)@.connected
                    &&& final(self)@.auto_fetch_sub == old(self)@.auto_fetch_sub
                    &&& final(self)@.tasks == old(self)@.tasks
                },
                Err(error) => outcome == Err::<(), E>(error) && final(self)@ == old(self)@,
            },
    {
        match fetched {
            Ok(contacts) => {
                self.contacts.replace_all(contacts);
                self.contacts_dirty = false;
                Ok(())
            },
            Err(error) => Err(error),
        }
    }

    /// Records the subscription to `AUTO_FETCH_EVENT` that fetches messages, in
    /// place of an earlier one.
    pub fn start_auto_message_fetching(&mut self, sub: U)
        requires
            old(self).wf(),
        ensures
            final(self).wf(),
            final(self)@ == old(self)@.with_auto_fetch(Some(sub)),
            final(self)@.auto_fetch_sub == Some(sub),
            final(self)@.contacts == old(self)@.contacts,
            final(self)@.self_info == old(self)@.self_info,
            final(self)@.device_time == old(self)@.device_time,
            final(self)@.contacts_dirty == old(self)@.contacts_dirty,
            final(self)@.connected == old(self)@.connected,
            final(self)@.tasks == old(self)@.tasks,
    {
        self.auto_fetch_sub = Some(sub);
    }

    /// Hands out the subscription that fetches messages, to be ended.
    pub fn stop_auto_message_fetching(&mut self) -> (sub: Option<U>)
        requires
            old(self).wf(),
        ensures
            final(self).wf(),
            stops_fetching(old(self)@, sub, final(self)@),
            sub == old(self)@.auto_fetch_sub,
            final(self)@ == old(self)@.with_auto_fetch(None),
            final(self)@.auto_fetch_sub is None,
            final(self)@.contacts == old(self)@.contacts,
            final(self)@.self_info == old(self)@.self_info,
            final(self)@.device_time == old(self)@.device_time,
            final(self)@.contacts_dirty == old(self)@.contacts_dirty,
            final(self)@.connected == old(self)@.connected,
            final(self)@.tasks == old(self)@.tasks,
    {
        self.auto_fetch_sub.take()
    }

    /// Records that the link is gone, and returns the event that announces it.
    pub fn connection_lost<X>(&mut self) -> (event: MeshCoreEvent<D, S, X>)
        requires
            old(self).wf(),
        ensures
            final(self).wf(),
            final(self)@ == old(self)@.after_loss(),
            event == disconnected_event::<D, S, X>(),
            event.event_type == EventType::Disconnected,
            event.payload is Empty,
            !final(self)@.connected,
            final(self)@.contacts == old(self)@.contacts,
            final(self)@.self_info == old(self)@.self_info,
            final(self)@.device_time == old(self)@.device_time,
            final(self)@.contacts_dirty == old(self)@.contacts_dirty,
            final(self)@.auto_fetch_sub == old(self)@.auto_fetch_sub,
            final(self)@.tasks == old(self)@.tasks,
    {
        self.connected = false;
        MeshCoreEvent::new(EventType::Disconnected, EventPayload::Empty)
    }

    /// Disconnects: hands out the background tasks, to be aborted, and the event
    /// to be emitted after that.
    pub fn disconnect<X>(&mut self) -> (teardown: (Vec<J>, MeshCoreEvent<D, S, X>))
        requires
            old(self).wf(),
        ensures
            final(self).wf(),
            tears_down(old(self)@, teardown.0@, teardown.1, final(self)@),
            final(self)@ == old(self)@.after_disconnect(),
            teardown.0@ == old(self)@.tasks,
            teardown.1 == disconnected_event::<D, S, X>(),
            teardown.1.event_type == EventType::Disconnected,
            teardown.1.payload is Empty,
            !final(self)@.connected,
            final(self)@.tasks.len() == 0,
            final(self)@.contacts == old(self)@.contacts,
            final(self)@.self_info == old(self)@.self_info,
            final(self)@.device_time == old(self)@.device_time,
            final(self)@.contacts_dirty == old(self)@.contacts_dirty,
            final(self)@.auto_fetch_sub == old(self)@.auto_fetch_sub,
    {
        let event: MeshCoreEvent<D, S, X> = self.connection_lost();
        let mut aborted: Vec<J> = Vec::new();
        aborted.append(&mut self.tasks);
        assert(aborted@ =~= old(self)@.tasks);
        (aborted, event)
    }

    /// Every cached contact is filed under the hexadecimal form of its own public
    /// key.
    pub proof fn lemma_contacts_are_filed_by_key(&self)
        requires
            self.wf(),
        ensures
            contacts::filed_by_key(self@.contacts),
    {
        self.contacts.lemma_filed_by_key();
    }
}

/// The event that announces the end of a link.
pub open spec fn disconnected_event<D, S, X>() -> MeshCoreEvent<D, S, X> {
    MeshCoreEvent { event_type: EventType::Disconnected, payload: EventPayload::Empty }
}

/// The kinds of events that change the caches.
pub open spec fn handled_kinds() -> Seq<EventType> {
    seq![EventType::Contacts, EventType::SelfInfo, EventType::CurrentTime, EventType::NewContact]
}

/// A device clock that is reported takes the place of whatever was known before,
/// be it earlier or later, and changes nothing else.
pub proof fn lemma_reported_time_is_known<D, S, J, U, X>(
    state: ClientState<D, S, J, U>,
    event: MeshCoreEvent<D, S, X>,
    time: u32,
)
    requires
        event.event_type == EventType::CurrentTime,
        event.payload == EventPayload::<D, S, X>::Time(time),
    ensures
        state.after_event(event).device_time == Some(time),
        state.after_event(event).contacts == state.contacts,
        state.after_event(event).self_info == state.self_info,
        state.after_event(event).contacts_dirty == state.contacts_dirty,
        state.after_event(event).connected == state.connected,
        state.after_event(event).auto_fetch_sub == state.auto_fetch_sub,
        state.after_event(event).tasks == state.tasks,
{
}

/// A self-description that is reported takes the place of whatever was known
/// before, and changes nothing else.
pub proof fn lemma_reported_self_info_is_known<D, S, J, U, X>(
    state: ClientState<D, S, J, U>,
    event: MeshCoreEvent<D, S, X>,
    info: S,
)
    requires
        event.event_type == EventType::SelfInfo,
        event.payload == EventPayload::<D, S, X>::SelfInfo(info),
    ensures
        state.after_event(event).self_info == Some(info),
        state.after_event(event).contacts == state.contacts,
        state.after_event(event).device_time == state.device_time,
        state.after_event(event).contacts_dirty == state.contacts_dirty,
        state.after_event(event).connected == state.connected,
        state.after_event(event).auto_fetch_sub == state.auto_fetch_sub,
        state.after_event(event).tasks == state.tasks,
{
}

/// A new contact is found under the hexadecimal form of its public key, and
/// whatever is filed under another key, and everything else, stays as it was.
pub proof fn lemma_new_contact_changes_one_entry<D, S, J, U, X>(
    state: ClientState<D, S, J, U>,
    event: MeshCoreEvent<D, S, X>,
    contact: Contact<D>,
    key: Seq<char>,
)
    requires
        event.event_type == EventType::NewContact,
        event.payload == EventPayload::<D, S, X>::Contact(contact),
    ensures
        state.after_event(event).contacts.dom().contains(hex::hex(contact.public_key@)),
        state.after_event(event).contacts[hex::hex(contact.public_key@)] == contact,
        key != hex::hex(contact.public_key@) ==> {
            &&& state.after_event(event).contacts.dom().contains(key) == state.contacts.dom().contains(key)
            &&& state.contacts.dom().contains(key) ==> state.after_event(event).contacts[key]
                == state.contacts[key]
        },
        state.after_event(event).self_info == state.self_info,
        state.after_event(event).device_time == state.device_time,
        state.after_event(event).contacts_dirty == state.contacts_dirty,
        state.after_event(event).connected == state.connected,
        state.after_event(event).auto_fetch_sub == state.auto_fetch_sub,
        state.after_event(event).tasks == state.tasks,
{
}

/// A contact list that is stored is cached in full: each contact that no later one
/// with the same public key follows is found under the hexadecimal form of its
/// public key, nothing else is cached, the cache counts as clean, and everything
/// else stays as it was.
pub proof fn lemma_stored_list_is_cached<D, S, J, U>(
    state: ClientState<D, S, J, U>,
    contacts: Seq<Contact<D>>,
)
    ensures
        forall|i: int|
            0 <= i < contacts.len() && (forall|j: int|
                i < j < contacts.len() ==> (#[trigger] contacts[j]).public_key@
                    != contacts[i].public_key@) ==> {
                let key = hex::hex((#[trigger] contacts[i]).public_key@);
                state.after_contacts(contacts).contacts.dom().contains(key) && state.after_contacts(
                    contacts,
                ).contacts[key] == contacts[i]
            },
        forall|key: Seq<char>| #[trigger]
            state.after_contacts(contacts).contacts.dom().contains(key) ==> contacts.contains(
                state.after_contacts(contacts).contacts[key],
            ),
        !state.after_contacts(contacts).contacts_dirty,
        state.after_contacts(contacts).self_info == state.self_info,
        state.after_contacts(contacts).device_time == state.device_time,
        state.after_contacts(contacts).connected == state.connected,
        state.after_contacts(contacts).auto_fetch_sub == state.auto_fetch_sub,
        state.after_contacts(contacts).tasks == state.tasks,
{
    contacts::lemma_list_is_cached(contacts);
}

/// A contact list that an event brings is cached in full, just like one that was
/// fetched.
pub proof fn lemma_reported_list_is_cached<D, S, J, U, X>(
    state: ClientState<D, S, J, U>,
    event: MeshCoreEvent<D, S, X>,
    contacts: Vec<Contact<D>>,
)
    requires
        event.event_type == EventType::Contacts,
        event.payload == EventPayload::<D, S, X>::Contacts(contacts),
    ensures
        forall|i: int|
            0 <= i < contacts@.len() && (forall|j: int|
                i < j < contacts@.len() ==> (#[trigger] contacts@[j]).public_key@
                    != contacts@[i].public_key@) ==> {
                let key = hex::hex((#[trigger] contacts@[i]).public_key@);
                state.after_event(event).contacts.dom().contains(key) && state.after_event(
                    event,
                ).contacts[key] == contacts@[i]
            },
        forall|key: Seq<char>| #[trigger]
            state.after_event(event).contacts.dom().contains(key) ==> contacts@.contains(
                state.after_event(event).contacts[key],
            ),
        !state.after_event(event).contacts_dirty,
        state.after_event(event).self_info == state.self_info,
        state.after_event(event).device_time == state.device_time,
        state.after_event(event).connected == state.connected,
        state.after_event(event).auto_fetch_sub == state.auto_fetch_sub,
        state.after_event(event).tasks == state.tasks,
{
    contacts::lemma_list_is_cached(contacts@);
}

/// An event whose content does not belong to its kind changes nothing.
pub proof fn lemma_content_has_to_fit<D, S, J, U, X>(
    state: ClientState<D, S, J, U>,
    event: MeshCoreEvent<D, S, X>,
)
    requires
        event.event_type == EventType::Contacts ==> !(event.payload is Contacts),
        event.event_type == EventType::SelfInfo ==> !(event.payload is SelfInfo),
        event.event_type == EventType::CurrentTime ==> !(event.payload is Time),
        event.event_type == EventType::NewContact ==> !(event.payload is Contact),
    ensures
        state.after_event(event) == state,
{
}

/// A client begins with empty caches that count as dirty, without a link, tasks or
/// a subscription.
pub proof fn lemma_first_state<D, S, J, U>()
    ensures
        ({
            let state = ClientState::<D, S, J, U>::initial();
            &&& state.contacts == Map::<Seq<char>, Contact<D>>::empty()
            &&& state.self_info is None
            &&& state.device_time is None
            &&& state.contacts_dirty
            &&& !state.connected
            &&& state.auto_fetch_sub is None
            &&& state.tasks.len() == 0
        }),
{
}

/// Connecting puts the two tasks, the writing one first, behind those there are,
/// and marks the link as up.
pub proof fn lemma_connect_adds_two_tasks<D, S, J, U>(
    state: ClientState<D, S, J, U>,
    write_task: J,
    read_task: J,
)
    ensures
        state.after_connect(write_task, read_task).connected,
        state.after_connect(write_task, read_task).tasks == state.tasks + seq![write_task, read_task],
        state.after_connect(write_task, read_task).contacts == state.contacts,
        state.after_connect(write_task, read_task).self_info == state.self_info,
        state.after_connect(write_task, read_task).device_time == state.device_time,
        state.after_connect(write_task, read_task).contacts_dirty == state.contacts_dirty,
        state.after_connect(write_task, read_task).auto_fetch_sub == state.auto_fetch_sub,
{
    assert(state.after_connect(write_task, read_task).tasks =~= state.tasks + seq![write_task, read_task]);
}

/// Losing the link marks it as gone and changes nothing else.
pub proof fn lemma_loss_marks_the_link<D, S, J, U>(state: ClientState<D, S, J, U>)
    ensures
        !state.after_loss().connected,
        state.after_loss().contacts == state.contacts,
        state.after_loss().self_info == state.self_info,
        state.after_loss().device_time == state.device_time,
        state.after_loss().contacts_dirty == state.contacts_dirty,
        state.after_loss().auto_fetch_sub == state.auto_fetch_sub,
        state.after_loss().tasks == state.tasks,
{
}

/// Disconnecting marks the link as gone, leaves no tasks and changes nothing else.
pub proof fn lemma_disconnect_clears_the_link<D, S, J, U>(state: ClientState<D, S, J, U>)
    ensures
        !state.after_disconnect().connected,
        state.after_disconnect().tasks.len() == 0,
        state.after_disconnect().contacts == state.contacts,
        state.after_disconnect().self_info == state.self_info,
        state.after_disconnect().device_time == state.device_time,
        state.after_disconnect().contacts_dirty == state.contacts_dirty,
        state.after_disconnect().auto_fetch_sub == state.auto_fetch_sub,
{
}

/// Starting and stopping to fetch messages changes the subscription and nothing
/// else.
pub proof fn lemma_auto_fetch_changes_the_subscription<D, S, J, U>(
    state: ClientState<D, S, J, U>,
    sub: Option<U>,
)
    ensures
        state.with_auto_fetch(sub).auto_fetch_sub == sub,
        state.with_auto_fetch(sub).contacts == state.contacts,
        state.with_auto_fetch(sub).self_info == state.self_info,
        state.with_auto_fetch(sub).device_time == state.device_time,
        state.with_auto_fetch(sub).contacts_dirty == state.contacts_dirty,
        state.with_auto_fetch(sub).connected == state.connected,
        state.with_auto_fetch(sub).tasks == state.tasks,
{
}

/// How a failed connection is explained: by the target, where there is one, and
/// the reason, both unchanged.
pub proof fn lemma_failure_texts(host: Seq<char>, port: u16, reason: Seq<char>)
    ensures
        serial_failure(reason) == "Failed to open serial port: "@ + reason,
        tcp_target(host, port) == host + ":"@ + text::decimal(port as nat),
        tcp_failure(host, port, reason) == "Failed to connect to "@ + host + ":"@ + text::decimal(
            port as nat,
        ) + ": "@ + reason,
{
    assert(tcp_failure(host, port, reason) =~= "Failed to connect to "@ + host + ":"@ + text::decimal(
        port as nat,
    ) + ": "@ + reason);
}

/// The caches follow four kinds of events.
pub proof fn lemma_followed_kinds(kind: EventType)
    ensures
        handled_kinds().contains(kind) <==> kind == EventType::Contacts || kind == EventType::SelfInfo
            || kind == EventType::CurrentTime || kind == EventType::NewContact,
        handled_kinds().len() == 4,
{
    let kinds = handled_kinds();
    assert(kinds[0] == EventType::Contacts && kinds[1] == EventType::SelfInfo);
    assert(kinds[2] == EventType::CurrentTime && kinds[3] == EventType::NewContact);
}

/// The event that announces the end of a link says so and carries nothing.
pub proof fn lemma_end_of_link_event<D, S, X>()
    ensures
        disconnected_event::<D, S, X>().event_type == EventType::Disconnected,
        disconnected_event::<D, S, X>().payload is Empty,
{
}

/// An attempt to connect succeeds exactly when the link opened, and the client is
/// connected then and served by the two tasks. When it fails, the error tells why
/// and the client is as it was.
pub proof fn lemma_connecting_succeeds_with_the_link<D, S, J, U>(
    before: ClientState<D, S, J, U>,
    opened: Result<(J, J), &str>,
    failure: Seq<char>,
    outcome: Result<(), Error>,
    after: ClientState<D, S, J, U>,
)
    requires
        concludes(before, opened, failure, outcome, after),
    ensures
        outcome is Ok <==> opened is Ok,
        opened matches Ok((write_task, read_task)) ==> {
            &&& after.connected
            &&& after.tasks == before.tasks + seq![write_task, read_task]
            &&& after.same_caches(before)
        },
        opened is Err ==> after == before,
        outcome matches Err(error) ==> error.text() == failure,
{
    if let Ok((write_task, read_task)) = opened {
        lemma_connect_adds_two_tasks(before, write_task, read_task);
    }
}

/// Contacts are fetched, all of them, when the cache is dirty and only then.
pub proof fn lemma_only_a_dirty_cache_is_loaded(dirty: bool)
    ensures
        contacts_step(dirty) is Fetch <==> dirty,
        dirty ==> contacts_step(dirty)->Fetch_0 == 0,
{
}

/// Storing succeeds exactly when the contacts were fetched. Then each of them that
/// no later one with the same public key follows is found under the hexadecimal
/// form of its public key, nothing else is cached and nothing is to be fetched any
/// more. Otherwise the error is handed on and the client is as it was.
pub proof fn lemma_storing_loads_the_cache<D, S, J, U, E>(
    before: ClientState<D, S, J, U>,
    fetched: Result<Vec<Contact<D>>, E>,
    outcome: Result<(), E>,
    after: ClientState<D, S, J, U>,
)
    requires
        stores(before, fetched, outcome, after),
    ensures
        outcome is Ok <==> fetched is Ok,
        fetched matches Err(error) ==> outcome == Err::<(), E>(error) && after == before,
        fetched matches Ok(contacts) ==> {
            &&& forall|i: int|
                0 <= i < contacts@.len() && (forall|j: int|
                    i < j < contacts@.len() ==> (#[trigger] contacts@[j]).public_key@
                        != contacts@[i].public_key@) ==> {
                    let key = hex::hex((#[trigger] contacts@[i]).public_key@);
                    after.contacts.dom().contains(key) && after.contacts[key] == contacts@[i]
                }
            &&& forall|key: Seq<char>| #[trigger]
                after.contacts.dom().contains(key) ==> contacts@.contains(after.contacts[key])
            &&& contacts_step(after.contacts_dirty) is Ready
        },
{
    if let Ok(contacts) = fetched {
        lemma_stored_list_is_cached(before, contacts@);
    }
}

/// Disconnecting hands out every task, in order, keeps none, and announces the end
/// of the link.
pub proof fn lemma_disconnect_hands_out_all_tasks<D, S, J, U, X>(
    before: ClientState<D, S, J, U>,
    tasks: Seq<J>,
    event: MeshCoreEvent<D, S, X>,
    after: ClientState<D, S, J, U>,
)
    requires
        tears_down(before, tasks, event, after),
    ensures
        tasks == before.tasks,
        after.tasks.len() == 0,
        !after.connected,
        after.same_caches(before),
        after.auto_fetch_sub == before.auto_fetch_sub,
        event.event_type == EventType::Disconnected,
        event.payload is Empty,
{
}

/// Stopping hands out the subscription that was started last, once.
pub proof fn lemma_stop_hands_out_the_subscription<D, S, J, U>(
    before: ClientState<D, S, J, U>,
    started: U,
    first: Option<U>,
    between: ClientState<D, S, J, U>,
    second: Option<U>,
    after: ClientState<D, S, J, U>,
)
    requires
        stops_fetching(before.with_auto_fetch(Some(started)), first, between),
        stops_fetching(between, second, after),
    ensures
        first == Some(started),
        second is None,
{
}

/// Messages are fetched as long as there are any: a message calls for another
/// request, and neither the lack of one nor an error does.
pub proof fn lemma_messages_are_fetched_until_none_is_left<M, E>(message: M, error: E)
    ensures
        calls_for_more(Ok::<Option<M>, E>(Some(message))),
        !calls_for_more(Ok::<Option<M>, E>(None)),
        !calls_for_more(Err::<Option<M>, E>(error)),
{
}

/// Only the kinds of events that `setup_event_handlers` names can change the
/// client.
pub proof fn lemma_other_kinds_change_nothing<D, S, J, U, X>(
    state: ClientState<D, S, J, U>,
    event: MeshCoreEvent<D, S, X>,
)
    requires
        !handled_kinds().contains(event.event_type),
    ensures
        state.after_event(event) == state,
{
    let kinds = handled_kinds();
    assert(kinds[0] == EventType::Contacts && kinds[1] == EventType::SelfInfo);
    assert(kinds[2] == EventType::CurrentTime && kinds[3] == EventType::NewContact);
}

/// Events change the caches only: the link, its tasks and the subscription that
/// fetches messages stay as they are.
pub proof fn lemma_events_leave_the_link_alone<D, S, J, U, X>(
    state: ClientState<D, S, J, U>,
    event: MeshCoreEvent<D, S, X>,
)
    ensures
        state.after_event(event).connected == state.connected,
        state.after_event(event).tasks == state.tasks,
        state.after_event(event).auto_fetch_sub == state.auto_fetch_sub,
{
}

/// Connecting, losing the link and disconnecting leave the caches alone.
pub proof fn lemma_the_link_leaves_caches_alone<D, S, J, U>(
    state: ClientState<D, S, J, U>,
    write_task: J,
    read_task: J,
)
    ensures
        state.after_connect(write_task, read_task).same_caches(state),
        state.after_loss().same_caches(state),
        state.after_disconnect().same_caches(state),
{
}

/// Contacts that were fetched are cached just like contacts that an event
/// brought.
pub proof fn lemma_fetching_equals_contacts_event<D, S, J, U, X>(
    state: ClientState<D, S, J, U>,
    contacts: Vec<Contact<D>>,
)
    ensures
        state.after_contacts(contacts@) == state.after_event(
            MeshCoreEvent::<D, S, X> {
                event_type: EventType::Contacts,
                payload: EventPayload::Contacts(contacts),
            },
        ),
{
}

/// A contact list leaves the cache clean, so that the contacts are not fetched
/// again.
pub proof fn lemma_contacts_clean_the_cache<D, S, J, U>(
    state: ClientState<D, S, J, U>,
    contacts: Seq<Contact<D>>,
)
    ensures
        !state.after_contacts(contacts).contacts_dirty,
{
}

/// A clean contact cache stays clean, whatever happens to the client.
pub proof fn lemma_clean_cache_stays_clean<D, S, J, U, X>(
    state: ClientState<D, S, J, U>,
    event: MeshCoreEvent<D, S, X>,
    contacts: Seq<Contact<D>>,
    write_task: J,
    read_task: J,
    sub: Option<U>,
)
    requires
        !state.contacts_dirty,
    ensures
        !state.after_event(event).contacts_dirty,
        !state.after_contacts(contacts).contacts_dirty,
        !state.after_connect(write_task, read_task).contacts_dirty,
        !state.after_loss().contacts_dirty,
        !state.after_disconnect().contacts_dirty,
        !state.with_auto_fetch(sub).contacts_dirty,
{
}

/// A new contact is filed under its key, takes the place of the contact that had
/// the same public key, and leaves contacts with other public keys and the dirty
/// flag alone.
pub proof fn lemma_new_contact<D, S, J, U, X>(
    state: ClientState<D, S, J, U>,
    contact: Contact<D>,
    other: Contact<D>,
)
    requires
        other.public_key@ != contact.public_key@,
    ensures
        ({
            let event = MeshCoreEvent::<D, S, X> {
                event_type: EventType::NewContact,
                payload: EventPayload::Contact(contact),
            };
            let after = state.after_event(event);
            let key = contacts::contact_key(contact);
            let other_key = contacts::contact_key(other);
            &&& after.contacts.dom().contains(key)
            &&& after.contacts[key] == contact
            &&& after.contacts.dom().contains(other_key) == state.contacts.dom().contains(other_key)
            &&& state.contacts.dom().contains(other_key) ==> after.contacts[other_key]
                == state.contacts[other_key]
            &&& after.contacts_dirty == state.contacts_dirty
        }),
{
    contacts::lemma_different_public_keys_do_not_clash(contact, other);
}

/// A connected client has tasks that serve its link: it starts without a link,
/// and everything that happens to it keeps this so.
pub proof fn lemma_connected_client_is_served<D, S, J, U, X>(
    state: ClientState<D, S, J, U>,
    event: MeshCoreEvent<D, S, X>,
    contacts: Seq<Contact<D>>,
    write_task: J,
    read_task: J,
    sub: Option<U>,
)
    requires
        state.served(),
    ensures
        ClientState::<D, S, J, U>::initial().served(),
        state.after_event(event).served(),
        state.after_contacts(contacts).served(),
        state.after_connect(write_task, read_task).served(),
        state.after_loss().served(),
        state.after_disconnect().served(),
        state.with_auto_fetch(sub).served(),
{
}

/// A disconnected client has no link and no tasks, and disconnecting it again
/// changes nothing.
pub proof fn lemma_disconnect_is_final<D, S, J, U>(state: ClientState<D, S, J, U>)
    ensures
        !state.after_disconnect().connected,
        state.after_disconnect().tasks.len() == 0,
        state.after_disconnect().after_disconnect() == state.after_disconnect(),
        state.after_disconnect().after_loss() == state.after_disconnect(),
{
}

/// Connecting and disconnecting again leaves a client that had no link and no
/// tasks as it was.
pub proof fn lemma_disconnect_undoes_connect<D, S, J, U>(
    state: ClientState<D, S, J, U>,
    write_task: J,
    read_task: J,
)
    requires
        !state.connected,
        state.tasks.len() == 0,
    ensures
        state.after_connect(write_task, read_task).after_disconnect() == state,
{
    assert(state.tasks =~= Seq::empty());
    assert(state.after_connect(write_task, read_task).after_disconnect() =~= state);
}

/// Stopping the automatic fetching of messages ends what starting it began, and
/// nothing is left to stop then.
pub proof fn lemma_stop_undoes_start<D, S, J, U>(state: ClientState<D, S, J, U>, sub: U)
    ensures
        state.with_auto_fetch(Some(sub)).auto_fetch_sub == Some(sub),
        state.with_auto_fetch(Some(sub)).with_auto_fetch(None) == state.with_auto_fetch(None),
        state.with_auto_fetch(None).auto_fetch_sub is None,
        state.auto_fetch_sub is None ==> state.with_auto_fetch(None) == state,
{
}

} // verus!
