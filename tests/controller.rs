use rabbit_digger::controller::{connect_event, Action, Batcher, ConfigSlot, Event, EventType, Poll, BATCH_CAP};
use rabbit_digger::error::{Address, Error};
use rabbit_digger::mixed::{protocol_of, HttpSocks5, Protocol, ServerConfig};
use rabbit_digger::net::{Net, NetNode, NoopNet};
use rabbit_digger::registry::Registry;
use rabbit_digger::socks5::{check_udp_header, udp_header};
use std::sync::Arc;

#[test]
fn config_is_set_once_and_removed_once() {
    let mut slot: ConfigSlot<u32> = ConfigSlot::new();
    assert!(matches!(slot.remove_config(), Err(Error::InvalidState(_))));
    assert_eq!(slot.update_config(1), Ok(()));
    assert!(matches!(slot.update_config(2), Err(Error::InvalidState(_))));
    assert_eq!(slot.config(), Some(&1));
    assert_eq!(slot.remove_config(), Ok(()));
    assert_eq!(slot.config(), None);
    assert_eq!(slot.update_config(3), Ok(()));
}

#[test]
fn twenty_events_make_two_ordered_batches() {
    let mut b: Batcher<u32> = Batcher::new();
    let mut batches: Vec<Vec<u32>> = Vec::new();
    for e in 0..20u32 {
        match b.step(Poll::Ready(e)) {
            Action::Publish(batch) => batches.push(batch),
            Action::Continue => {}
            other => panic!("unexpected {:?}", other),
        }
    }
    match b.step(Poll::Empty) {
        Action::Publish(batch) => batches.push(batch),
        other => panic!("unexpected {:?}", other),
    }
    assert_eq!(batches.len(), 2);
    assert_eq!(batches[0].len(), BATCH_CAP);
    assert_eq!(batches[1].len(), 4);
    let all: Vec<u32> = batches.concat();
    assert_eq!(all, (0..20).collect::<Vec<u32>>());
    assert_eq!(b.step(Poll::Empty), Action::Sleep);
    assert_eq!(b.step(Poll::Closed), Action::Stop);
}

#[test]
fn closing_publishes_what_is_pending() {
    let mut b: Batcher<u32> = Batcher::new();
    assert_eq!(b.step(Poll::Ready(7)), Action::Continue);
    assert_eq!(b.step(Poll::Closed), Action::Publish(vec![7]));
    assert_eq!(b.step(Poll::Closed), Action::Stop);
}

#[test]
fn event_keeps_id_and_type() {
    let e = Event::new(42, EventType::Inbound(10));
    assert_eq!(e.uuid, 42);
    assert_eq!(e.event_type, EventType::Inbound(10));
    assert!(e.time > 0);
    let n = Event::new(1, EventType::NewTcp(Address::Domain("a".to_string(), 1)));
    assert!(matches!(n.event_type, EventType::NewTcp(_)));
}

#[test]
fn registry_last_registration_wins() {
    let mut r: Registry<u32, u32> = Registry::new();
    r.add_net("socks5".to_string(), 1);
    r.add_net("socks5".to_string(), 2);
    r.add_server("http+socks5".to_string(), 3);
    assert_eq!(r.net.len(), 1);
    assert_eq!(r.net.get(&"socks5".to_string()), Some(&2));
    assert_eq!(r.server.get(&"http+socks5".to_string()), Some(&3));
}

#[test]
fn mixed_listener_splits_by_first_byte() {
    assert_eq!(protocol_of(5), Protocol::Socks5);
    assert_eq!(protocol_of(b'G'), Protocol::Http);
    let listen: Net = Arc::new(NetNode::Leaf("local".to_string()));
    let out: Net = Arc::new(NetNode::Noop(NoopNet));
    let s = HttpSocks5::from_config(
        listen.clone(),
        out.clone(),
        ServerConfig { bind: "127.0.0.1:1080".to_string() },
    );
    assert_eq!(s.bind, "127.0.0.1:1080");
    assert!(Arc::ptr_eq(&s.listen_net, &listen));
    assert!(Arc::ptr_eq(&s.server.http_net, &out));
    assert_eq!(s.server.protocol_for(5), Protocol::Socks5);
    assert_eq!(HttpSocks5::kind_name(), "http+socks5");
}

#[test]
fn udp_header_checks() {
    assert_eq!(check_udp_header(&[0, 0, 0, 1, 2]), Ok(3));
    assert!(matches!(check_udp_header(&[0, 0, 1, 1]), Err(Error::Other(_))));
    assert!(matches!(check_udp_header(&[0, 0]), Err(Error::IO(_))));
    assert_eq!(udp_header(), vec![0, 0, 0]);
}

#[test]
fn connect_reports_new_tcp_only_on_success() {
    let a = Address::Domain("example.com".to_string(), 80);
    assert_eq!(connect_event(true, a.clone()), Some(EventType::NewTcp(a.clone())));
    assert_eq!(connect_event(false, a), None);
}
