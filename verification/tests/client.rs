use meshcore::{
    event_stream, event_stream_filtered, fetch_again, hex_encode, tcp_address, Contact,
    ContactsStep, Error, EventPayload, EventType, MeshCore, MeshCoreEvent, AUTO_FETCH_EVENT,
};

type Client = MeshCore<u32, String, &'static str, u8>;
type Event = MeshCoreEvent<u32, String, u64>;

fn contact(public_key: &[u8], name: &str, details: u32) -> Contact<u32> {
    Contact { public_key: public_key.to_vec(), adv_name: name.to_string(), details }
}

fn event(event_type: EventType, payload: EventPayload<u32, String, u64>) -> Event {
    MeshCoreEvent::new(event_type, payload)
}

fn keys(client: &Client) -> Vec<String> {
    let mut keys: Vec<String> =
        client.contacts().entries().iter().map(|entry| entry.key.clone()).collect();
    keys.sort();
    keys
}

#[test]
fn a_new_client_knows_nothing() {
    let client = Client::new();
    assert!(!client.is_connected());
    assert!(client.contacts_dirty());
    assert_eq!(client.self_info(), None);
    assert_eq!(client.device_time(), None);
    assert!(keys(&client).is_empty());
    assert_eq!(client.get_contact_by_name(""), None);
    assert_eq!(client.get_contact_by_prefix(&[]), None);
}

#[test]
fn hex_text_is_lower_case() {
    assert_eq!(hex_encode(&[]), "");
    assert_eq!(hex_encode(&[0x00, 0x0f, 0xa5, 0xff]), "000fa5ff");
    assert_eq!(hex_encode(&[0x12, 0x34, 0x56, 0x78, 0x9a, 0xbc, 0xde]), "123456789abcde");
}

#[test]
fn a_contact_list_replaces_the_cache() {
    let mut client = Client::new();
    client.handle_event(event(
        EventType::NewContact,
        EventPayload::Contact(contact(&[9], "old", 0)),
    ));
    client.handle_event(event(
        EventType::Contacts,
        EventPayload::Contacts(vec![
            contact(&[1, 2], "a", 1),
            contact(&[3, 4], "b", 2),
            contact(&[1, 2], "c", 3),
        ]),
    ));
    assert_eq!(keys(&client), vec!["0102", "0304"]);
    assert_eq!(client.contacts().get("0102"), Some(&contact(&[1, 2], "c", 3)));
    assert_eq!(client.contacts().get("0304"), Some(&contact(&[3, 4], "b", 2)));
    assert_eq!(client.contacts().get("09"), None);
    assert!(!client.contacts_dirty());
}

#[test]
fn a_new_contact_is_added_and_leaves_the_cache_dirty() {
    let mut client = Client::new();
    client.handle_event(event(
        EventType::NewContact,
        EventPayload::Contact(contact(&[0xab], "x", 1)),
    ));
    client.handle_event(event(
        EventType::NewContact,
        EventPayload::Contact(contact(&[0xcd], "y", 2)),
    ));
    client.handle_event(event(
        EventType::NewContact,
        EventPayload::Contact(contact(&[0xab], "z", 3)),
    ));
    assert_eq!(keys(&client), vec!["ab", "cd"]);
    assert_eq!(client.contacts().get("ab"), Some(&contact(&[0xab], "z", 3)));
    assert_eq!(client.contacts().get("cd"), Some(&contact(&[0xcd], "y", 2)));
    assert!(client.contacts_dirty());
}

#[test]
fn self_info_and_time_are_cached() {
    let mut client = Client::new();
    client.handle_event(event(EventType::SelfInfo, EventPayload::SelfInfo("me".to_string())));
    client.handle_event(event(EventType::CurrentTime, EventPayload::Time(1700000000)));
    assert_eq!(client.self_info(), Some(&"me".to_string()));
    assert_eq!(client.device_time(), Some(1700000000));
    client.handle_event(event(EventType::CurrentTime, EventPayload::Time(5)));
    assert_eq!(client.device_time(), Some(5));
}

#[test]
fn the_handled_kinds_are_four() {
    assert_eq!(
        Client::new().setup_event_handlers(),
        vec![
            EventType::Contacts,
            EventType::SelfInfo,
            EventType::CurrentTime,
            EventType::NewContact
        ]
    );
}

#[test]
fn events_that_do_not_fit_change_nothing() {
    let mut client = Client::new();
    client.handle_event(event(EventType::Contacts, EventPayload::Empty));
    client.handle_event(event(EventType::Contacts, EventPayload::Time(1)));
    client.handle_event(event(EventType::CurrentTime, EventPayload::SelfInfo("no".to_string())));
    client.handle_event(event(EventType::SelfInfo, EventPayload::Other(4)));
    client.handle_event(event(EventType::MessagesWaiting, EventPayload::Time(1)));
    client.handle_event(event(
        EventType::ContactMsgRecv,
        EventPayload::Contact(contact(&[1], "a", 1)),
    ));
    client.handle_event(event(EventType::Other(3), EventPayload::Contacts(vec![])));
    assert!(client.contacts_dirty());
    assert_eq!(client.device_time(), None);
    assert_eq!(client.self_info(), None);
    assert!(keys(&client).is_empty());
}

#[test]
fn contacts_are_found_by_name_in_any_case() {
    let mut client = Client::new();
    client.handle_event(event(
        EventType::Contacts,
        EventPayload::Contacts(vec![contact(&[1], "Alice", 1), contact(&[2], "B\u{d6}b", 2)]),
    ));
    assert_eq!(client.get_contact_by_name("aLICE").map(|c| c.details), Some(1));
    assert_eq!(client.get_contact_by_name("Alice").map(|c| c.details), Some(1));
    assert_eq!(client.get_contact_by_name("b\u{d6}B").map(|c| c.details), Some(2));
    assert_eq!(client.get_contact_by_name("b\u{f6}b"), None);
    assert_eq!(client.get_contact_by_name("Alic"), None);
    assert_eq!(client.get_contact_by_name("Alice "), None);
}

#[test]
fn contacts_are_found_by_prefix() {
    let mut client = Client::new();
    client.handle_event(event(
        EventType::Contacts,
        EventPayload::Contacts(vec![contact(&[1, 2, 3], "a", 1), contact(&[1, 3, 3], "b", 2)]),
    ));
    assert_eq!(client.get_contact_by_prefix(&[1, 2]).map(|c| c.details), Some(1));
    assert_eq!(client.get_contact_by_prefix(&[1, 3, 3]).map(|c| c.details), Some(2));
    assert_eq!(client.get_contact_by_prefix(&[1, 3, 3, 0]), None);
    assert_eq!(client.get_contact_by_prefix(&[2]), None);
    assert!(client.get_contact_by_prefix(&[1]).is_some());
    assert!(client.get_contact_by_prefix(&[]).is_some());
}

#[test]
fn contacts_are_fetched_once() {
    let mut client = Client::new();
    assert_eq!(client.ensure_contacts(), ContactsStep::Fetch(0));
    assert_eq!(client.store_contacts::<&str>(Err("timeout")), Err("timeout"));
    assert_eq!(client.ensure_contacts(), ContactsStep::Fetch(0));
    assert_eq!(client.store_contacts::<&str>(Ok(vec![contact(&[7], "s", 1)])), Ok(()));
    assert_eq!(client.ensure_contacts(), ContactsStep::Ready);
    assert_eq!(keys(&client), vec!["07"]);
}

#[test]
fn connecting_and_disconnecting() {
    let mut client = Client::new();
    assert_eq!(client.serial(Ok(("write", "read"))), Ok(()));
    assert!(client.is_connected());
    client.handle_event(event(EventType::CurrentTime, EventPayload::Time(8)));
    let (tasks, emitted): (Vec<&'static str>, Event) = client.disconnect();
    assert_eq!(tasks, vec!["write", "read"]);
    assert_eq!(emitted, event(EventType::Disconnected, EventPayload::Empty));
    assert!(!client.is_connected());
    assert_eq!(client.device_time(), Some(8));
    let (tasks, _): (Vec<&'static str>, Event) = client.disconnect();
    assert!(tasks.is_empty());
}

#[test]
fn a_lost_link_keeps_its_tasks_until_the_client_disconnects() {
    let mut client = Client::new();
    assert_eq!(client.tcp("localhost", 5000, Ok(("write", "read"))), Ok(()));
    assert!(client.is_connected());
    let emitted: Event = client.connection_lost();
    assert_eq!(emitted, event(EventType::Disconnected, EventPayload::Empty));
    assert!(!client.is_connected());
    let (tasks, _): (Vec<&'static str>, Event) = client.disconnect();
    assert_eq!(tasks, vec!["write", "read"]);
}

#[test]
fn a_serial_port_that_does_not_open() {
    let mut client = Client::new();
    let outcome = client.serial(Err("No such file"));
    assert_eq!(
        outcome,
        Err(Error::Connection("Failed to open serial port: No such file".to_string()))
    );
    assert_eq!(outcome.unwrap_err().message(), "Failed to open serial port: No such file");
    assert!(!client.is_connected());
}

#[test]
fn a_tcp_connection_that_is_refused() {
    let mut client = Client::new();
    assert_eq!(
        client.tcp("10.0.0.1", 65535, Err("refused")),
        Err(Error::Connection("Failed to connect to 10.0.0.1:65535: refused".to_string()))
    );
    assert!(!client.is_connected());
}

#[test]
fn tcp_addresses() {
    assert_eq!(tcp_address("localhost", 0), "localhost:0");
    assert_eq!(tcp_address("::1", 9), "::1:9");
    assert_eq!(tcp_address("host", 5000), "host:5000");
    assert_eq!(tcp_address("", 40960), ":40960");
}

#[test]
fn the_fetching_subscription_is_handed_back() {
    let mut client = Client::new();
    assert_eq!(client.stop_auto_message_fetching(), None);
    client.start_auto_message_fetching(3);
    client.start_auto_message_fetching(4);
    assert_eq!(client.stop_auto_message_fetching(), Some(4));
    assert_eq!(client.stop_auto_message_fetching(), None);
}

#[test]
fn messages_are_fetched_until_there_is_none() {
    assert_eq!(AUTO_FETCH_EVENT, EventType::MessagesWaiting);
    assert!(fetch_again::<&str, &str>(&Ok(Some("hello"))));
    assert!(!fetch_again::<&str, &str>(&Ok(None)));
    assert!(!fetch_again::<&str, &str>(&Err("lost")));
}

#[test]
fn streams_pass_on_what_was_received() {
    let time = event(EventType::CurrentTime, EventPayload::Time(1));
    let other = event(EventType::Other(9), EventPayload::Other(2));
    let received: Vec<Result<Event, u64>> = vec![Ok(time.clone()), Err(5), Ok(other.clone())];
    let all: Vec<Event> = received.iter().cloned().filter_map(event_stream).collect();
    assert_eq!(all, vec![time, other.clone()]);
    let some: Vec<Event> = received
        .iter()
        .cloned()
        .filter_map(|r| event_stream_filtered(r, EventType::Other(9)))
        .collect();
    assert_eq!(some, vec![other]);
    assert_eq!(event_stream_filtered(received[0].clone(), EventType::Contacts), None);
}
