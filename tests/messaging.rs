use burge_proj::event::{Receiver, RoutedEvent, Router, Sender};
use burge_proj::events::{EventSender, Sender as FanOut};

#[test]
fn mailbox_drains_in_append_order_and_empties() {
    let mut r: Receiver<u32> = Receiver::new();
    r.receive(3);
    r.receive(1);
    r.receive(2);
    assert_eq!(r.poll(), vec![3, 1, 2]);
    assert_eq!(r.poll(), Vec::<u32>::new());
}

#[test]
fn empty_mailbox_drains_to_nothing() {
    let mut r: Receiver<u32> = Receiver::new();
    assert!(r.poll().is_empty());
}

#[test]
fn broadcaster_copies_to_every_mailbox() {
    let mut s: Sender<u8> = Sender::new();
    let a = s.new_receiver();
    let b = s.new_receiver();
    assert_eq!((a, b), (0, 1));
    s.send(7);
    s.send(9);
    assert_eq!(s.poll(a), vec![7, 9]);
    assert_eq!(s.poll(b), vec![7, 9]);
    assert!(s.poll(a).is_empty());
}

#[test]
fn broadcaster_mailbox_created_later_misses_earlier_messages() {
    let mut s: Sender<u8> = Sender::new();
    let a = s.new_receiver();
    s.send(1);
    let b = s.new_receiver();
    s.send(2);
    assert_eq!(s.poll(a), vec![1, 2]);
    assert_eq!(s.poll(b), vec![2]);
}

#[test]
fn broadcaster_unknown_handle_drains_nothing() {
    let mut s: Sender<u8> = Sender::new();
    s.new_receiver();
    s.send(1);
    assert!(s.poll(5).is_empty());
}

#[test]
fn router_targets_one_mailbox_or_all() {
    let mut router: Router<&str> = Router::new();
    let x = router.new_receiver_uuid(10);
    let y = router.new_receiver_uuid(20);
    router.send(RoutedEvent(Some(x), "a"));
    assert_eq!(router.poll(x), vec!["a"]);
    assert!(router.poll(y).is_empty());
    router.send(RoutedEvent(None, "b"));
    assert_eq!(router.poll(x), vec!["b"]);
    assert_eq!(router.poll(y), vec!["b"]);
}

#[test]
fn router_drops_message_for_unknown_target() {
    let mut router: Router<u32> = Router::new();
    let x = router.new_receiver_uuid(1);
    router.send(RoutedEvent(Some(2), 5));
    assert!(router.poll(x).is_empty());
    assert!(router.poll(2).is_empty());
}

#[test]
fn router_generated_identifiers_are_version_four_and_distinct() {
    let mut router: Router<u32> = Router::new();
    let a = router.new_receiver();
    let b = router.new_receiver();
    assert_eq!((a >> 76) & 0xf, 4);
    assert_eq!((b >> 76) & 0xf, 4);
    assert_ne!(a, b);
    router.send(RoutedEvent(Some(b), 8));
    assert!(router.poll(a).is_empty());
    assert_eq!(router.poll(b), vec![8]);
}

#[test]
fn router_reregistration_replaces_the_mailbox() {
    let mut router: Router<u32> = Router::new();
    let x = router.new_receiver_uuid(4);
    router.send(RoutedEvent(Some(x), 1));
    assert_eq!(router.new_receiver_uuid(4), 4);
    assert!(router.poll(4).is_empty());
    router.send(RoutedEvent(None, 2));
    assert_eq!(router.poll(4), vec![2]);
}

#[test]
fn event_sender_fans_out() {
    let mut s: EventSender<i32> = EventSender::new();
    assert_eq!(s.new_receiver(), 0);
    assert_eq!(s.new_receiver(), 1);
    s.send(-4);
}

#[test]
fn events_receiver_accepts_messages() {
    let mut r: burge_proj::events::Receiver<i32> = burge_proj::events::Receiver::new();
    r.receive(1);
    r.receive(2);
}
