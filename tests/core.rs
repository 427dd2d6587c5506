use scsp::cmm::ConcurrentMultiMap;
use scsp::handler::{Delivery, Handler, MsgHandler};
use scsp::mailbox::Mailbox;
use scsp::pubsub::{Bus, SimpleBus, StreamAction};

fn identities_on(bus: &SimpleBus, channel: &str) -> Vec<String> {
    let summary = bus.list_handler();
    for c in summary.channels {
        if c.channel == channel {
            return c.handlers;
        }
    }
    vec![]
}

#[test]
fn test_append() {
    let mut m = ConcurrentMultiMap::<i64>::new();
    m.append("k1", 1);
    m.append("k1", 2);
    m.remove_if("k1", |v| v < &3);
    assert_eq!(0, m.size_of("k1"))
}

#[test]
fn test_register() {
    let mut bus = SimpleBus::new();
    bus.register_handler(Handler::new(0, "1", "default", Delivery::Streaming));

    let smry = bus.list_handler();
    assert_eq!(1, smry.channels.len());
    assert_eq!(1, smry.channels.get(0).unwrap().handlers.len())
}

#[test]
fn multimap_append_if_absent_skips_equal_values() {
    let mut m = ConcurrentMultiMap::<i64>::new();
    m.append_if_absent("k", 1, |a, b| a == b);
    m.append_if_absent("k", 2, |a, b| a == b);
    m.append_if_absent("k", 1, |a, b| a == b);
    assert_eq!(vec![1, 2], m.for_each("k", |v| *v));
    assert_eq!(vec!["k".to_string()], m.keys());
}

#[test]
fn multimap_remove_if_keeps_order_and_other_keys() {
    let mut m = ConcurrentMultiMap::<i64>::new();
    for v in [5, 1, 7, 2, 9] {
        m.append("a", v);
    }
    m.append("b", 1);
    m.remove_if("a", |v| *v < 5);
    assert_eq!(vec![5, 7, 9], m.for_each("a", |v| *v));
    assert_eq!(vec![1], m.for_each("b", |v| *v));
    m.remove_if("missing", |_| true);
    assert_eq!(0, m.size_of("missing"));
    assert_eq!(2, m.keys().len());
}

#[test]
fn multimap_for_each_mut_maps_in_place() {
    let mut m = ConcurrentMultiMap::<i64>::new();
    m.append("a", 1);
    m.append("a", 2);
    m.for_each_mut("a", |v| v * 10);
    assert_eq!(vec![10, 20], m.for_each("a", |v| *v));
    assert_eq!(2, m.replace("a", 0, 3) / 5);
    assert_eq!(vec![3, 20], m.for_each("a", |v| *v));
}

#[test]
fn mailbox_last_post_wins() {
    let mut mb = Mailbox::new();
    assert!(!mb.is_ready());
    mb.post(vec![1]);
    mb.post(vec![2]);
    assert!(mb.is_ready());
    assert_eq!(Some(vec![2]), mb.take());
    assert_eq!(None, mb.take());
}

#[test]
fn handler_lifecycle() {
    let mut h = Handler::new(7, "id", "ch", Delivery::Polling);
    assert_eq!("id", h.identity());
    assert_eq!("ch", h.channel());
    assert_eq!(7, h.ticket());
    assert!(h.delivery() == Delivery::Polling);
    assert!(h.handle(vec![4, 5]).is_ok());
    assert_eq!(Some(vec![4, 5]), h.take());
    assert!(!h.is_closed());
    h.close();
    assert!(h.is_closed());
    h.close();
    assert!(h.is_closed());
}

#[test]
fn identity_dedup_keeps_one_entry() {
    let mut bus = SimpleBus::new();
    let first = bus.register("client-1", "c", Delivery::Streaming);
    let second = bus.register("client-1", "c", Delivery::Streaming);
    assert_ne!(first, second);
    assert_eq!(vec!["client-1".to_string()], identities_on(&bus, "c"));
    bus.publish("c".to_string(), vec![1]);
    assert_eq!(Some(vec![1]), bus.take("c", "client-1", first));
    bus.publish("c".to_string(), vec![2]);
    assert_eq!(None, bus.take("c", "client-1", second));
}

#[test]
fn fan_out_reaches_only_the_channel() {
    let mut bus = SimpleBus::new();
    let h1 = bus.register("h1", "c", Delivery::Streaming);
    let h2 = bus.register("h2", "c", Delivery::Streaming);
    let h3 = bus.register("h3", "d", Delivery::Streaming);
    bus.publish("c".to_string(), vec![7, 7]);
    assert_eq!(Some(vec![7, 7]), bus.take("c", "h1", h1));
    assert_eq!(Some(vec![7, 7]), bus.take("c", "h2", h2));
    assert_eq!(None, bus.take("d", "h3", h3));
}

#[test]
fn lazy_eviction_after_close_and_publish() {
    let mut bus = SimpleBus::new();
    let t = bus.register("h", "c", Delivery::Streaming);
    bus.register("other", "c", Delivery::Streaming);
    bus.close("c", "h", t);
    assert!(bus.is_closed("c", "h", t));
    assert_eq!(vec!["h".to_string(), "other".to_string()], identities_on(&bus, "c"));
    bus.publish("c".to_string(), vec![1]);
    assert_eq!(vec!["other".to_string()], identities_on(&bus, "c"));
}

#[test]
fn one_shot_pull_closes_with_or_without_message() {
    let mut bus = SimpleBus::new();
    let t = bus.register("p", "c", Delivery::Polling);
    assert!(bus.pull_step("c", "p", t, false).is_none());
    bus.publish("c".to_string(), vec![3]);
    let resp = bus.pull_step("c", "p", t, false).unwrap();
    assert!(resp.has_msg);
    assert_eq!(vec![3], resp.msg);
    assert!(bus.is_closed("c", "p", t));
    bus.publish("c".to_string(), vec![4]);
    assert!(identities_on(&bus, "c").is_empty());

    let t2 = bus.register("p", "c", Delivery::Polling);
    let resp = bus.pull_step("c", "p", t2, true).unwrap();
    assert!(!resp.has_msg);
    assert!(resp.msg.is_empty());
    assert!(bus.is_closed("c", "p", t2));
}

#[test]
fn development_scenario_delivers_once() {
    let mut bus = SimpleBus::new();
    let t = bus.register("client-1", "development", Delivery::Streaming);
    bus.publish("development".to_string(), vec![1, 2, 3]);
    match bus.stream_step("development", "client-1", t, true) {
        StreamAction::Send(m) => assert_eq!(vec![1, 2, 3], m),
        _ => panic!("expected a message"),
    }
    assert!(matches!(bus.stream_step("development", "client-1", t, true), StreamAction::Wait));
    bus.publish("other".to_string(), vec![9]);
    assert!(matches!(bus.stream_step("development", "client-1", t, true), StreamAction::Wait));
    assert!(matches!(bus.stream_step("development", "client-1", t, false), StreamAction::Exit));
    assert!(bus.is_closed("development", "client-1", t));
    assert!(matches!(bus.stream_step("development", "client-1", t, true), StreamAction::Exit));
}

#[test]
fn remove_if_by_identity_touches_one_channel() {
    let mut m = ConcurrentMultiMap::<Handler>::new();
    m.append("development", Handler::new(0, "client-1", "development", Delivery::Streaming));
    m.append("other", Handler::new(1, "client-1", "other", Delivery::Streaming));
    m.for_each_mut("development", |mut h| {
        h.close();
        h
    });
    m.remove_if("development", |h| h.identity() == "client-1");
    assert_eq!(0, m.size_of("development"));
    assert_eq!(1, m.size_of("other"));
    assert_eq!(vec!["development".to_string(), "other".to_string()], m.keys());
}

#[test]
fn overwrite_on_bus_keeps_latest() {
    let mut bus = SimpleBus::new();
    let t = bus.register("s", "c", Delivery::Streaming);
    bus.publish("c".to_string(), vec![1]);
    bus.publish("c".to_string(), vec![2]);
    assert_eq!(Some(vec![2]), bus.take("c", "s", t));
    assert_eq!(None, bus.take("c", "s", t));
}

#[test]
fn publish_to_unknown_channel_creates_nothing() {
    let mut bus = SimpleBus::new();
    bus.publish("nowhere".to_string(), vec![1]);
    assert_eq!(0, bus.list_handler().channels.len());
}
