use bevy_app::events::{Events, ManualEventReader};

#[test]
fn event_visible_during_its_own_tick() {
    let mut ev: Events<u64> = Events::new();
    let mut reader = ManualEventReader::new();
    ev.send(7);
    assert_eq!(reader.read(&ev), vec![7]);
}

#[test]
fn event_visible_one_tick_later_and_gone_after_two() {
    let mut ev: Events<u64> = Events::new();
    ev.send(7);
    // Tick boundary: the rotation that opens the next tick.
    ev.update();
    let mut late_reader = ManualEventReader::new();
    assert_eq!(late_reader.read(&ev), vec![7]);
    // Second tick boundary: the event is dropped.
    ev.update();
    let mut too_late = ManualEventReader::new();
    assert_eq!(too_late.read(&ev), Vec::<u64>::new());
}

#[test]
fn reader_sees_each_event_once() {
    let mut ev: Events<u64> = Events::new();
    let mut reader = ManualEventReader::new();
    ev.send(1);
    ev.send(2);
    assert_eq!(reader.read(&ev), vec![1, 2]);
    assert_eq!(reader.read(&ev), Vec::<u64>::new());
    ev.update();
    ev.send(3);
    assert_eq!(reader.read(&ev), vec![3]);
}

#[test]
fn rotation_interleaved_with_sends_keeps_the_window() {
    let mut ev: Events<u64> = Events::new();
    ev.send(1);
    ev.update();
    ev.send(2);
    // Both generations retained: 1 from the previous tick, 2 current.
    assert_eq!(ev.len(), 2);
    assert_eq!(*ev.get(0), 1);
    assert_eq!(*ev.get(1), 2);
    ev.update();
    // 1 dropped, 2 promoted.
    assert_eq!(ev.len(), 1);
    assert_eq!(*ev.get(0), 2);
    assert_eq!(ev.total(), 2);
}
