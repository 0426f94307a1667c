use wectr_sdk::inbox::Inboxes;
use wectr_sdk::rt::Runtime;

#[test]
fn take_on_empty_inbox_gives_nothing() {
    let mut inboxes = Inboxes::new();
    assert_eq!(inboxes.take(3), None);
}

#[test]
fn messages_leave_in_arrival_order() {
    let mut inboxes = Inboxes::new();
    inboxes.dispatch(1, vec![1, 2]);
    inboxes.dispatch(1, vec![3]);
    inboxes.dispatch(1, vec![]);
    assert_eq!(inboxes.take(1), Some(vec![1, 2]));
    inboxes.dispatch(1, vec![9]);
    assert_eq!(inboxes.take(1), Some(vec![3]));
    assert_eq!(inboxes.take(1), Some(vec![]));
    assert_eq!(inboxes.take(1), Some(vec![9]));
    assert_eq!(inboxes.take(1), None);
}

#[test]
fn channels_do_not_mix() {
    let mut inboxes = Inboxes::new();
    inboxes.dispatch(1, vec![10]);
    inboxes.dispatch(2, vec![20]);
    assert_eq!(inboxes.take(2), Some(vec![20]));
    assert_eq!(inboxes.take(2), None);
    assert_eq!(inboxes.take(1), Some(vec![10]));
}

#[test]
fn drain_discards_one_channel_only() {
    let mut inboxes = Inboxes::new();
    inboxes.dispatch(5, vec![1]);
    inboxes.dispatch(5, vec![2]);
    inboxes.dispatch(6, vec![3]);
    inboxes.drain(5);
    assert_eq!(inboxes.take(5), None);
    assert_eq!(inboxes.take(6), Some(vec![3]));
    inboxes.drain(7);
    inboxes.dispatch(5, vec![4]);
    assert_eq!(inboxes.take(5), Some(vec![4]));
}

#[test]
fn runtime_inbox_round_trip() {
    let mut rt: Runtime<u8> = Runtime::new(0);
    rt.dispatch(7, vec![42, 0, 0, 0]);
    assert_eq!(rt.take(7), Some(vec![42, 0, 0, 0]));
    assert_eq!(rt.take(7), None);
    rt.dispatch(7, vec![1]);
    rt.drain(7);
    assert_eq!(rt.take(7), None);
}
