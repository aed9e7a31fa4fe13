use live_md::notifier::{
    stream_action, ChangeNotifier, Delivery, StreamAction, RELOAD_MESSAGE,
};

fn signal_of(delivery: Delivery) -> Option<String> {
    match delivery {
        Delivery::Signal(signal) => Some(signal),
        _ => None,
    }
}

#[test]
fn subscriber_receives_every_signal_in_publish_order() {
    let mut notifier = ChangeNotifier::new(16);
    let viewer = notifier.subscribe().unwrap();
    let published: Vec<String> = (0..10).map(|n| format!("doc{}.md", n)).collect();
    for signal in &published {
        assert_eq!(notifier.publish(signal), 1);
    }
    let mut received = Vec::new();
    while let Some(signal) = signal_of(notifier.try_recv(viewer)) {
        received.push(signal);
    }
    assert_eq!(received, published);
    assert!(matches!(notifier.try_recv(viewer), Delivery::Empty));
    assert!(notifier.is_subscribed(viewer));
}

#[test]
fn receives_interleaved_with_publishes_keep_the_order() {
    let mut notifier = ChangeNotifier::new(2);
    let viewer = notifier.subscribe().unwrap();
    let mut received = Vec::new();
    for n in 0..20 {
        notifier.publish(&format!("{}", n));
        if n % 2 == 1 {
            received.push(signal_of(notifier.try_recv(viewer)).unwrap());
            received.push(signal_of(notifier.try_recv(viewer)).unwrap());
        }
    }
    let expected: Vec<String> = (0..20).map(|n| format!("{}", n)).collect();
    assert_eq!(received, expected);
}

#[test]
fn identifiers_are_handed_out_in_turn() {
    let mut notifier = ChangeNotifier::new(4);
    assert_eq!(notifier.capacity(), 4);
    assert_eq!(notifier.subscriber_count(), 0);
    assert_eq!(notifier.subscribe(), Some(0));
    assert_eq!(notifier.subscribe(), Some(1));
    assert!(notifier.unsubscribe(0));
    assert_eq!(notifier.subscribe(), Some(2));
    assert_eq!(notifier.subscriber_count(), 2);
    assert!(!notifier.is_subscribed(0));
    assert!(notifier.is_subscribed(1));
    assert!(notifier.is_subscribed(2));
}

#[test]
fn signals_published_before_subscribing_are_not_delivered() {
    let mut notifier = ChangeNotifier::new(4);
    assert_eq!(notifier.publish("early.md"), 0);
    let viewer = notifier.subscribe().unwrap();
    assert!(matches!(notifier.try_recv(viewer), Delivery::Empty));
    assert_eq!(notifier.publish("late.md"), 1);
    assert_eq!(signal_of(notifier.try_recv(viewer)), Some("late.md".to_string()));
}

#[test]
fn every_subscriber_gets_its_own_copy() {
    let mut notifier = ChangeNotifier::new(4);
    let first = notifier.subscribe().unwrap();
    let second = notifier.subscribe().unwrap();
    assert_eq!(notifier.publish("a.md"), 2);
    assert_eq!(signal_of(notifier.try_recv(first)), Some("a.md".to_string()));
    assert_eq!(notifier.publish("b.md"), 2);
    assert_eq!(signal_of(notifier.try_recv(second)), Some("a.md".to_string()));
    assert_eq!(signal_of(notifier.try_recv(second)), Some("b.md".to_string()));
    assert_eq!(signal_of(notifier.try_recv(first)), Some("b.md".to_string()));
}

#[test]
fn subscriber_with_a_full_queue_is_dropped_and_others_go_on() {
    let mut notifier = ChangeNotifier::new(2);
    let slow = notifier.subscribe().unwrap();
    let quick = notifier.subscribe().unwrap();
    assert_eq!(notifier.publish("1"), 2);
    assert_eq!(signal_of(notifier.try_recv(quick)), Some("1".to_string()));
    assert_eq!(notifier.publish("2"), 2);
    assert_eq!(signal_of(notifier.try_recv(quick)), Some("2".to_string()));
    // The slow subscriber holds two signals: the third finds its queue full.
    assert_eq!(notifier.publish("3"), 1);
    assert!(!notifier.is_subscribed(slow));
    assert!(matches!(notifier.try_recv(slow), Delivery::Dropped));
    assert_eq!(signal_of(notifier.try_recv(quick)), Some("3".to_string()));
    assert_eq!(notifier.subscriber_count(), 1);
}

#[test]
fn unsubscribed_viewer_gets_nothing_more() {
    let mut notifier = ChangeNotifier::new(4);
    let viewer = notifier.subscribe().unwrap();
    notifier.publish("a.md");
    assert!(notifier.unsubscribe(viewer));
    assert!(!notifier.unsubscribe(viewer));
    assert!(matches!(notifier.try_recv(viewer), Delivery::Dropped));
    assert_eq!(notifier.publish("b.md"), 0);
    assert!(!notifier.unsubscribe(99));
}

#[test]
fn each_signal_becomes_one_reload_message() {
    assert_eq!(RELOAD_MESSAGE, "reload");
    assert_eq!(stream_action(&Delivery::Signal("a.md".to_string())), StreamAction::Reload);
    assert_eq!(stream_action(&Delivery::Signal(String::new())), StreamAction::Reload);
    assert_eq!(stream_action(&Delivery::Empty), StreamAction::Wait);
    assert_eq!(stream_action(&Delivery::Dropped), StreamAction::Close);
}
