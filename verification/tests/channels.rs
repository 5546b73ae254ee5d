use adc_backend::processor::PacketProcessor;

#[test]
fn requesting_all_four_keeps_the_first_two() {
    let mut p = PacketProcessor::new();
    p.set_active_channels([true, true, true, true]);
    assert_eq!(p.get_active_channels(), [true, true, false, false]);
}

#[test]
fn requesting_two_is_applied_unchanged() {
    let mut p = PacketProcessor::new();
    p.set_active_channels([false, true, false, true]);
    assert_eq!(p.get_active_channels(), [false, true, false, true]);
}

#[test]
fn requesting_three_drops_the_highest() {
    let mut p = PacketProcessor::new();
    p.set_active_channels([false, true, true, true]);
    assert_eq!(p.get_active_channels(), [false, true, true, false]);
}

#[test]
fn requesting_one_or_none_is_applied_unchanged() {
    let mut p = PacketProcessor::new();
    p.set_active_channels([false, false, true, false]);
    assert_eq!(p.get_active_channels(), [false, false, true, false]);
    p.set_active_channels([false, false, false, false]);
    assert_eq!(p.get_active_channels(), [false, false, false, false]);
}

#[test]
fn inactive_channel_samples_are_discarded() {
    let mut p = PacketProcessor::new();
    p.set_active_channels([true, false, false, true]);
    p.add_bytes(&[0xAA, 0x01, 0x00, 0x01, 0x55]); // channel 1: inactive
    p.add_bytes(&[0xAA, 0x03, 0x00, 0x02, 0x55]); // channel 3: active
    let samples = p.process_packets();
    assert_eq!(samples.len(), 1);
    assert_eq!(samples[0].channel, 3);
}

#[test]
fn defaults_are_channels_zero_and_one() {
    let p = PacketProcessor::new();
    assert_eq!(p.get_active_channels(), [true, true, false, false]);
    let cfg = p.get_trigger_config();
    assert!(!cfg.enabled);
    assert_eq!(cfg.channel, 0);
    assert_eq!(cfg.level_raw, 0);
    assert!(cfg.rising_edge);
}
