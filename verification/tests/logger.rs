use adc_backend::logger::Logger;
use adc_backend::sample::AdcSample;

#[test]
fn fresh_logger_records_nothing() {
    let mut log = Logger::new();
    assert!(!log.is_recording());
    let s = AdcSample { channel: 0, raw_value: 1, timestamp: 1, is_trigger: false };
    assert_eq!(log.log_sample(&s), None);
}

#[test]
fn start_yields_the_header_and_enables_recording() {
    let mut log = Logger::new();
    let header = log.start();
    assert_eq!(header, "timestamp,channel,voltage,raw_value\n");
    assert!(log.is_recording());
}

#[test]
fn rows_are_rendered_only_while_recording() {
    let mut log = Logger::new();
    log.start();
    let s = AdcSample { channel: 1, raw_value: 0x8000, timestamp: 42, is_trigger: false };
    assert_eq!(log.log_sample(&s), Some("42,1,-10.0000,32768\n".to_string()));
    log.stop();
    assert_eq!(log.log_sample(&s), None);
}

#[test]
fn stop_twice_is_a_harmless_no_op() {
    let mut log = Logger::new();
    log.start();
    log.stop();
    assert!(!log.is_recording());
    log.stop();
    assert!(!log.is_recording());
}

#[test]
fn restart_begins_a_fresh_session() {
    let mut log = Logger::new();
    log.start();
    let s = AdcSample { channel: 0, raw_value: 7, timestamp: 9, is_trigger: false };
    assert!(log.log_sample(&s).is_some());
    log.stop();
    // toggling back on yields the header anew: the destination is fresh
    let header = log.start();
    assert_eq!(header, "timestamp,channel,voltage,raw_value\n");
    assert!(log.is_recording());
}
