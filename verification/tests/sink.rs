use adc_backend::sink::SampleSink;

#[test]
fn overflow_drops_the_oldest_record() {
    let mut sink = SampleSink::new(3);
    sink.publish("A".to_string());
    sink.publish("B".to_string());
    sink.publish("C".to_string());
    sink.publish("D".to_string());
    let drained = sink.drain();
    assert_eq!(drained, vec!["B".to_string(), "C".to_string(), "D".to_string()]);
    assert_eq!(sink.drain(), Vec::<String>::new());
}

#[test]
fn drain_preserves_fifo_order_and_empties() {
    let mut sink = SampleSink::new(10);
    sink.publish("first".to_string());
    sink.publish("second".to_string());
    assert_eq!(sink.len(), 2);
    let drained = sink.drain();
    assert_eq!(drained, vec!["first".to_string(), "second".to_string()]);
    assert_eq!(sink.len(), 0);
}

#[test]
fn no_record_is_delivered_twice() {
    let mut sink = SampleSink::new(4);
    sink.publish("one".to_string());
    let first = sink.drain();
    sink.publish("two".to_string());
    let second = sink.drain();
    assert_eq!(first, vec!["one".to_string()]);
    assert_eq!(second, vec!["two".to_string()]);
}

#[test]
fn at_capacity_the_length_stays_bounded() {
    let mut sink = SampleSink::new(2);
    for i in 0..5 {
        sink.publish(format!("r{}", i));
        assert!(sink.len() <= 2);
    }
    assert_eq!(sink.drain(), vec!["r3".to_string(), "r4".to_string()]);
}
