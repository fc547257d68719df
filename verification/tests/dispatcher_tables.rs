use deribit::Dispatcher;

#[test]
fn ids_increase_strictly_from_one() {
    let mut d: Dispatcher<&str, &str> = Dispatcher::new();
    assert_eq!(d.allocate("a"), 1);
    assert_eq!(d.allocate("b"), 2);
    assert_eq!(d.allocate("c"), 3);
}

#[test]
fn out_of_order_resolution_keeps_slots_apart() {
    let mut d: Dispatcher<&str, &str> = Dispatcher::new();
    for _ in 0..4 {
        d.allocate("filler");
    }
    let five = d.allocate("slot five");
    let six = d.allocate("slot six");
    assert_eq!(five, 5);
    assert_eq!(six, 6);
    // the response for id 6 arrives first; each caller still gets its own
    assert_eq!(d.resolve(6), Some("slot six"));
    assert_eq!(d.resolve(5), Some("slot five"));
}

#[test]
fn resolution_is_exactly_once() {
    let mut d: Dispatcher<&str, &str> = Dispatcher::new();
    let id = d.allocate("only");
    assert_eq!(d.resolve(id), Some("only"));
    assert_eq!(d.resolve(id), None);
}

#[test]
fn unknown_id_resolves_to_nothing() {
    let mut d: Dispatcher<&str, &str> = Dispatcher::new();
    assert_eq!(d.resolve(99), None);
}

#[test]
fn notification_before_subscribe_is_dropped() {
    let d: Dispatcher<&str, &str> = Dispatcher::new();
    assert_eq!(d.sink_for("trades.BTC-PERPETUAL"), None);
}

#[test]
fn notification_after_subscribe_reaches_the_sink() {
    let mut d: Dispatcher<&str, &str> = Dispatcher::new();
    d.subscribe("trades.BTC-PERPETUAL".to_string(), "sink");
    assert_eq!(d.sink_for("trades.BTC-PERPETUAL"), Some(&"sink"));
    assert_eq!(d.sink_for("trades.ETH-PERPETUAL"), None);
}

#[test]
fn resubscribe_replaces_the_sink_silently() {
    let mut d: Dispatcher<&str, &str> = Dispatcher::new();
    d.subscribe("book.BTC".to_string(), "first");
    d.subscribe("book.BTC".to_string(), "second");
    assert_eq!(d.sink_for("book.BTC"), Some(&"second"));
}

#[test]
fn unsubscribe_drops_later_notifications() {
    let mut d: Dispatcher<&str, &str> = Dispatcher::new();
    d.subscribe("book.BTC".to_string(), "sink");
    d.unsubscribe("book.BTC");
    assert_eq!(d.sink_for("book.BTC"), None);
    // removing a channel that is not there changes nothing
    d.unsubscribe("book.BTC");
    assert_eq!(d.sink_for("book.BTC"), None);
}

#[test]
fn tables_are_independent() {
    let mut d: Dispatcher<&str, &str> = Dispatcher::new();
    let id = d.allocate("slot");
    d.subscribe("chan".to_string(), "sink");
    assert_eq!(d.resolve(id), Some("slot"));
    assert_eq!(d.sink_for("chan"), Some(&"sink"));
    d.unsubscribe("chan");
    assert_eq!(d.resolve(id), None);
}
