use adc_backend::processor::PacketProcessor;

#[test]
fn single_short_frame_is_decoded() {
    let mut p = PacketProcessor::new();
    p.add_bytes(&[0xAA, 0x01, 0x12, 0x34, 0x55]);
    let samples = p.process_packets();
    assert_eq!(samples.len(), 1);
    assert_eq!(samples[0].channel, 1);
    assert_eq!(samples[0].raw_value, 0x1234);
    assert!(!samples[0].is_trigger);
}

#[test]
fn long_frame_carries_wire_trigger() {
    let mut p = PacketProcessor::new();
    p.add_bytes(&[0xAA, 0x00, 0x0F, 0xA0, 0xCC, 0x55]);
    let samples = p.process_packets();
    assert_eq!(samples.len(), 1);
    assert_eq!(samples[0].channel, 0);
    assert_eq!(samples[0].raw_value, 0x0FA0);
    assert!(samples[0].is_trigger);
}

#[test]
fn frames_interleaved_with_garbage_are_all_recovered() {
    let mut p = PacketProcessor::new();
    let mut stream: Vec<u8> = Vec::new();
    stream.extend_from_slice(&[0x17, 0x00, 0x42]); // garbage
    stream.extend_from_slice(&[0xAA, 0x00, 0x01, 0x02, 0x55]); // frame 1
    stream.extend_from_slice(&[0x99, 0x98, 0x97, 0x96, 0x95, 0x94]); // garbage
    stream.extend_from_slice(&[0xAA, 0x01, 0x03, 0x04, 0xCC, 0x55]); // frame 2
    stream.extend_from_slice(&[0x20, 0x21]); // trailing garbage
    p.add_bytes(&stream);
    let samples = p.process_packets();
    assert_eq!(samples.len(), 2);
    assert_eq!(samples[0].channel, 0);
    assert_eq!(samples[0].raw_value, 0x0102);
    assert!(!samples[0].is_trigger);
    assert_eq!(samples[1].channel, 1);
    assert_eq!(samples[1].raw_value, 0x0304);
    assert!(samples[1].is_trigger);
}

#[test]
fn corrupted_stop_drops_one_candidate_only() {
    let mut p = PacketProcessor::new();
    let mut stream: Vec<u8> = Vec::new();
    // a candidate whose STOP position holds a corrupted byte
    stream.extend_from_slice(&[0xAA, 0x01, 0x12, 0x34, 0xEE, 0x55]);
    // the next frame must still be decoded
    stream.extend_from_slice(&[0xAA, 0x00, 0x56, 0x78, 0x55]);
    p.add_bytes(&stream);
    let samples = p.process_packets();
    assert_eq!(samples.len(), 1);
    assert_eq!(samples[0].channel, 0);
    assert_eq!(samples[0].raw_value, 0x5678);
}

#[test]
fn incomplete_frame_stays_buffered_across_calls() {
    let mut p = PacketProcessor::new();
    p.add_bytes(&[0xAA, 0x01, 0x12]);
    assert_eq!(p.process_packets().len(), 0);
    p.add_bytes(&[0x34, 0x55]);
    let samples = p.process_packets();
    assert_eq!(samples.len(), 1);
    assert_eq!(samples[0].channel, 1);
    assert_eq!(samples[0].raw_value, 0x1234);
}

#[test]
fn value_byte_equal_to_trigger_marker_is_not_mistaken() {
    let mut p = PacketProcessor::new();
    // the low value byte is 0xCC, but it sits at offset 3, not 4
    p.add_bytes(&[0xAA, 0x01, 0x0C, 0xCC, 0x55]);
    let samples = p.process_packets();
    assert_eq!(samples.len(), 1);
    assert_eq!(samples[0].raw_value, 0x0CCC);
    assert!(!samples[0].is_trigger);
}

#[test]
fn timestamps_are_nondecreasing() {
    let mut p = PacketProcessor::new();
    let mut stream: Vec<u8> = Vec::new();
    for i in 0..10u8 {
        stream.extend_from_slice(&[0xAA, i % 2, 0x00, i, 0x55]);
    }
    p.add_bytes(&stream);
    let samples = p.process_packets();
    assert_eq!(samples.len(), 10);
    for w in samples.windows(2) {
        assert!(w[0].timestamp <= w[1].timestamp);
    }
}

#[test]
fn stats_count_accepted_samples_per_channel() {
    let mut p = PacketProcessor::new();
    p.add_bytes(&[0xAA, 0x00, 0x00, 0x01, 0x55]);
    p.add_bytes(&[0xAA, 0x01, 0x00, 0x02, 0x55]);
    p.add_bytes(&[0xAA, 0x01, 0x00, 0x03, 0x55]);
    p.add_bytes(&[0xAA, 0x02, 0x00, 0x04, 0x55]); // channel 2 inactive by default
    let samples = p.process_packets();
    assert_eq!(samples.len(), 3);
    let (total, per_channel) = p.get_stats();
    assert_eq!(total, 3);
    assert_eq!(per_channel, [1, 2, 0, 0]);
}

#[test]
fn an_immediate_second_pass_decodes_nothing() {
    let mut p = PacketProcessor::new();
    p.add_bytes(&[0xAA, 0x01, 0x12, 0x34, 0x55, 0xAA, 0x00]);
    assert_eq!(p.process_packets().len(), 1);
    assert_eq!(p.process_packets().len(), 0);
    // the incomplete trailing frame was carried over untouched
    p.add_bytes(&[0x43, 0x21, 0x55]);
    let samples = p.process_packets();
    assert_eq!(samples.len(), 1);
    assert_eq!(samples[0].raw_value, 0x4321);
}

#[test]
fn reset_stream_discards_partial_frames() {
    let mut p = PacketProcessor::new();
    p.add_bytes(&[0xAA, 0x01, 0x12]);
    p.reset_stream();
    // the stale prefix must not be stitched to fresh bytes
    p.add_bytes(&[0x34, 0x55, 0xAA, 0x00, 0x00, 0x09, 0x55]);
    let samples = p.process_packets();
    assert_eq!(samples.len(), 1);
    assert_eq!(samples[0].raw_value, 0x0009);
}
