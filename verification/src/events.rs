//! Events that a device emits, and the records that they carry.

use vstd::prelude::*;

verus! {

/// The kind of an event.
#[derive(Clone, Copy, Debug, PartialEq, Eq, Hash, Structural)]
pub enum EventType {
    /// The whole contact list has been received.
    Contacts,
    /// A contact has been added or changed.
    NewContact,
    /// The device has described itself.
    SelfInfo,
    /// The device has reported its clock.
    CurrentTime,
    /// Messages are waiting on the device.
    MessagesWaiting,
    /// A message from a contact has been received.
    ContactMsgRecv,
    /// The link to the device is gone.
    Disconnected,
    /// Any other kind, told apart by a number.
    Other(u32),
}

/// A contact known to the device.
///
/// `details` is whatever else the device tells about it.
#[derive(Clone, Debug, PartialEq, Eq)]
pub struct Contact<D> {
    /// The key that identifies the contact.
    pub public_key: Vec<u8>,
    /// The name under which the contact advertises itself.
    pub adv_name: String,
    /// The rest of the record.
    pub details: D,
}

/// What an event carries. `D` is the rest of a contact record, `S` the
/// self-description of a device, and `X` any other content.
#[derive(Clone, Debug, PartialEq, Eq)]
pub enum EventPayload<D, S, X> {
    /// Nothing.
    Empty,
    /// A contact list.
    Contacts(Vec<Contact<D>>),
    /// One contact.
    Contact(Contact<D>),
    /// The self-description of the device.
    SelfInfo(S),
    /// The device's clock.
    Time(u32),
    /// Any other content.
    Other(X),
}

/// An event.
#[derive(Clone, Debug, PartialEq, Eq)]
pub struct MeshCoreEvent<D, S, X> {
    /// The kind of the event.
    pub event_type: EventType,
    /// What it carries.
    pub payload: EventPayload<D, S, X>,
}

impl<D, S, X> MeshCoreEvent<D, S, X> {
    /// Makes an event.
    pub fn new(event_type: EventType, payload: EventPayload<D, S, X>) -> (event: Self)
        ensures
            event == (MeshCoreEvent { event_type, payload }),
    {
        MeshCoreEvent { event_type, payload }
    }
}

/// What a stream of all events makes of one thing received: the event, or nothing
/// where events were missed.
pub open spec fn streamed<T, E>(received: Result<T, E>) -> Option<T> {
    match received {
        Ok(event) => Some(event),
        Err(_) => None,
    }
}

/// What a stream of the events of one kind makes of one thing received.
pub open spec fn streamed_of_kind<D, S, X, E>(
    received: Result<MeshCoreEvent<D, S, X>, E>,
    event_type: EventType,
) -> Option<MeshCoreEvent<D, S, X>> {
    match received {
        Ok(event) if event.event_type == event_type => Some(event),
        _ => None,
    }
}

/// The events that come out of a stream, given what it makes of each thing
/// received.
pub open spec fn stream_output<T>(items: Seq<Option<T>>) -> Seq<T>
    decreases items.len(),
{
    if items.len() == 0 {
        Seq::empty()
    } else {
        let earlier = stream_output(items.drop_last());
        match items.last() {
            Some(event) => earlier.push(event),
            None => earlier,
        }
    }
}

/// Decides what a stream of all events yields for one thing received.
pub fn event_stream<T, E>(received: Result<T, E>) -> (item: Option<T>)
    ensures
        item == streamed(received),
        match received {
            Ok(event) => item == Some(event),
            Err(_) => item is None,
        },
{
    received.ok()
}

/// Decides what a stream of the events of one kind yields for one thing received.
pub fn event_stream_filtered<D, S, X, E>(
    received: Result<MeshCoreEvent<D, S, X>, E>,
    event_type: EventType,
) -> (item: Option<MeshCoreEvent<D, S, X>>)
    ensures
        item == streamed_of_kind(received, event_type),
        match received {
            Ok(event) => if event.event_type == event_type {
                item == Some(event)
            } else {
                item is None
            },
            Err(_) => item is None,
        },
{
    match event_stream(received) {
        Some(event) => {
            if event.event_type == event_type {
                Some(event)
            } else {
                None
            }
        },
        None => None,
    }
}

/// A stream of all events yields every event that was received, unchanged, and
/// nothing where events were missed.
pub proof fn lemma_stream_yields_every_event<T, E>(event: T, missed: E)
    ensures
        streamed(Ok::<T, E>(event)) == Some(event),
        streamed(Err::<T, E>(missed)) == None::<T>,
{
}

/// A stream of the events of one kind yields every event of that kind that was
/// received, unchanged, and no other.
pub proof fn lemma_filtered_stream_yields_its_kind<D, S, X, E>(
    event: MeshCoreEvent<D, S, X>,
    missed: E,
    event_type: EventType,
)
    ensures
        event.event_type == event_type ==> streamed_of_kind(
            Ok::<MeshCoreEvent<D, S, X>, E>(event),
            event_type,
        ) == Some(event),
        event.event_type != event_type ==> streamed_of_kind(
            Ok::<MeshCoreEvent<D, S, X>, E>(event),
            event_type,
        ) is None,
        streamed_of_kind(Err::<MeshCoreEvent<D, S, X>, E>(missed), event_type) is None,
{
}

/// A stream puts out what it yields in the order in which it was received.
pub proof fn lemma_stream_output_grows_at_the_end<T>(items: Seq<Option<T>>, event: T)
    ensures
        stream_output(Seq::<Option<T>>::empty()).len() == 0,
        stream_output(items.push(Some(event))) == stream_output(items).push(event),
        stream_output(items.push(None)) == stream_output(items),
{
    assert(items.push(Some(event)).drop_last() =~= items);
    assert(items.push(None).drop_last() =~= items);
}

/// The stream of the events of one kind is the stream of all events with those of
/// other kinds left out, in the same order.
pub proof fn lemma_filtered_stream<D, S, X, E>(
    received: Seq<Result<MeshCoreEvent<D, S, X>, E>>,
    event_type: EventType,
)
    ensures
        stream_output(
            received.map_values(|r: Result<MeshCoreEvent<D, S, X>, E>| streamed_of_kind(r, event_type)),
        ) == stream_output(
            received.map_values(|r: Result<MeshCoreEvent<D, S, X>, E>| streamed(r)),
        ).filter(|event: MeshCoreEvent<D, S, X>| event.event_type == event_type),
    decreases received.len(),
{
    reveal(Seq::filter);
    let of_kind = |r: Result<MeshCoreEvent<D, S, X>, E>| streamed_of_kind(r, event_type);
    let all = |r: Result<MeshCoreEvent<D, S, X>, E>| streamed(r);
    let wanted = |event: MeshCoreEvent<D, S, X>| event.event_type == event_type;
    if received.len() > 0 {
        let earlier = received.drop_last();
        lemma_filtered_stream(earlier, event_type);
        assert(received.map_values(of_kind).drop_last() =~= earlier.map_values(of_kind));
        assert(received.map_values(all).drop_last() =~= earlier.map_values(all));
        let before = stream_output(earlier.map_values(all));
        if let Ok(event) = received.last() {
            assert(before.push(event).drop_last() =~= before);
        }
    } else {
        assert(stream_output(received.map_values(all)) =~= Seq::empty());
    }
}

} // verus!
