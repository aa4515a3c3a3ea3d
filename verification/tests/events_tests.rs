use roguelike_core::events::EventChannel;

#[test]
fn reader_sees_each_event_exactly_once() {
    let mut chan: EventChannel<u32> = EventChannel::new();
    let r = chan.register_reader();
    chan.single_write(1);
    chan.single_write(2);
    let first = chan.read(&r);
    assert_eq!(first, vec![1, 2]);
    let again = chan.read(&r);
    assert!(again.is_empty());
    chan.single_write(3);
    let second = chan.read(&r);
    assert_eq!(second, vec![3]);
}

#[test]
fn readers_are_independent() {
    let mut chan: EventChannel<u32> = EventChannel::new();
    let a = chan.register_reader();
    chan.single_write(10);
    let b = chan.register_reader();
    chan.single_write(20);
    // a sees everything written since registration, b only what came later
    assert_eq!(chan.read(&a), vec![10, 20]);
    assert_eq!(chan.read(&b), vec![20]);
    chan.single_write(30);
    assert_eq!(chan.read(&a), vec![30]);
    assert_eq!(chan.read(&b), vec![30]);
}

#[test]
fn drain_vec_write_appends_in_order_and_empties() {
    let mut chan: EventChannel<u32> = EventChannel::new();
    let r = chan.register_reader();
    let mut batch = vec![4, 5, 6];
    chan.drain_vec_write(&mut batch);
    assert!(batch.is_empty());
    chan.single_write(7);
    assert_eq!(chan.read(&r), vec![4, 5, 6, 7]);
}

#[test]
fn compact_preserves_unread_events() {
    let mut chan: EventChannel<u32> = EventChannel::new();
    let a = chan.register_reader();
    let b = chan.register_reader();
    chan.single_write(1);
    chan.single_write(2);
    let _ = chan.read(&a);
    // b has not read yet: compaction must keep its events
    chan.compact();
    assert_eq!(chan.read(&b), vec![1, 2]);
    chan.compact();
    chan.single_write(3);
    assert_eq!(chan.read(&a), vec![3]);
    assert_eq!(chan.read(&b), vec![3]);
}
