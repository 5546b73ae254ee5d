use adc_backend::processor::PacketProcessor;
use adc_backend::sample::TriggerConfig;

// 1.0 V in raw counts: 1.0 * 32768 / 10 = 3276.8, truncated as the
// firmware command encoding does.
const ONE_VOLT_RAW: i16 = 3276;

fn frame(channel: u8, raw: u16) -> [u8; 5] {
    [0xAA, channel, (raw >> 8) as u8, (raw & 0xFF) as u8, 0x55]
}

#[test]
fn disabled_trigger_passes_every_active_sample() {
    let mut p = PacketProcessor::new();
    p.add_bytes(&frame(0, 10));
    p.add_bytes(&frame(1, 20));
    p.add_bytes(&frame(0, 30));
    let samples = p.process_packets();
    assert_eq!(samples.len(), 3);
    assert!(samples.iter().all(|s| !s.is_trigger));
}

#[test]
fn enabled_trigger_discards_until_first_rising_crossing() {
    let mut p = PacketProcessor::new();
    p.set_active_channels([false, false, true, true]);
    p.configure_trigger(TriggerConfig {
        enabled: true,
        channel: 2,
        level_raw: ONE_VOLT_RAW,
        rising_edge: true,
    });
    p.add_bytes(&frame(2, 3276)); // exactly at the level: not above, discarded
    p.add_bytes(&frame(3, 100)); // other channel before the crossing: discarded
    p.add_bytes(&frame(2, 4000)); // crossing: retained, flagged as the trigger
    p.add_bytes(&frame(3, 200)); // other channel after the crossing: retained
    p.add_bytes(&frame(2, 50)); // below the level again, gate stays open: retained
    let samples = p.process_packets();
    assert_eq!(samples.len(), 3);
    assert_eq!(samples[0].channel, 2);
    assert_eq!(samples[0].raw_value, 4000);
    assert!(samples[0].is_trigger);
    assert_eq!(samples[1].channel, 3);
    assert_eq!(samples[1].raw_value, 200);
    assert!(!samples[1].is_trigger);
    assert_eq!(samples[2].channel, 2);
    assert_eq!(samples[2].raw_value, 50);
    assert!(!samples[2].is_trigger);
}

#[test]
fn gate_survives_across_decode_passes() {
    let mut p = PacketProcessor::new();
    p.configure_trigger(TriggerConfig {
        enabled: true,
        channel: 0,
        level_raw: 100,
        rising_edge: true,
    });
    p.add_bytes(&frame(0, 500));
    assert_eq!(p.process_packets().len(), 1);
    // the latch stayed open: a later pass retains below-level samples
    p.add_bytes(&frame(0, 5));
    let samples = p.process_packets();
    assert_eq!(samples.len(), 1);
    assert!(!samples[0].is_trigger);
}

#[test]
fn falling_edge_fires_below_the_level() {
    let mut p = PacketProcessor::new();
    p.configure_trigger(TriggerConfig {
        enabled: true,
        channel: 1,
        level_raw: 0,
        rising_edge: false,
    });
    p.add_bytes(&frame(1, 10)); // above: discarded
    p.add_bytes(&frame(1, 0x8000)); // -32768: below, fires
    let samples = p.process_packets();
    assert_eq!(samples.len(), 1);
    assert_eq!(samples[0].raw_value, 0x8000);
    assert!(samples[0].is_trigger);
}

#[test]
fn reconfiguring_closes_the_gate_again() {
    let mut p = PacketProcessor::new();
    let cfg = TriggerConfig { enabled: true, channel: 0, level_raw: 100, rising_edge: true };
    p.configure_trigger(cfg);
    p.add_bytes(&frame(0, 500));
    assert_eq!(p.process_packets().len(), 1);
    p.configure_trigger(cfg);
    // same policy, but the latch is closed until the edge is seen anew
    p.add_bytes(&frame(0, 5));
    assert_eq!(p.process_packets().len(), 0);
    p.add_bytes(&frame(0, 500));
    assert_eq!(p.process_packets().len(), 1);
}

#[test]
fn wire_marker_on_other_active_channel_opens_the_gate() {
    let mut p = PacketProcessor::new();
    p.set_active_channels([true, false, true, false]);
    p.configure_trigger(TriggerConfig {
        enabled: true,
        channel: 2,
        level_raw: ONE_VOLT_RAW,
        rising_edge: true,
    });
    // a hardware-marked frame on channel 0 (not the trigger channel)
    p.add_bytes(&[0xAA, 0x00, 0x00, 0x07, 0xCC, 0x55]);
    p.add_bytes(&frame(2, 5));
    let samples = p.process_packets();
    assert_eq!(samples.len(), 2);
    assert!(samples[0].is_trigger);
    assert_eq!(samples[1].raw_value, 5);
}
