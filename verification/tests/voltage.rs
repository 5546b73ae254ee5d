use adc_backend::sample::AdcSample;
use adc_backend::sample::signed_of_raw;
use adc_backend::sample::voltage_e4_of_raw;
use adc_backend::text::csv_row;
use adc_backend::text::display_line;
use adc_backend::text::log_header_row;

#[test]
fn full_scale_positive_is_just_under_ten_volts() {
    // 0x7FFF = 32767 counts = 9.99969... V
    let v = voltage_e4_of_raw(0x7FFF);
    assert_eq!(v, 99997);
    let volts = v as f32 / 10000.0;
    assert!((volts - 9.99969).abs() < 0.001);
}

#[test]
fn full_scale_negative_is_exactly_minus_ten_volts() {
    // 0x8000 = -32768 counts = -10.0 V exactly
    let v = voltage_e4_of_raw(0x8000);
    assert_eq!(v, -100000);
    assert_eq!(v as f32 / 10000.0, -10.0);
}

#[test]
fn zero_and_small_values_scale_exactly() {
    assert_eq!(voltage_e4_of_raw(0), 0);
    // 3277 counts = 1.00006... V, nearest 10^-4 V is 1.0001
    assert_eq!(voltage_e4_of_raw(3277), 10001);
    // 0xFFFF = -1 count = -0.000305... V, nearest 10^-4 V is -0.0003
    assert_eq!(voltage_e4_of_raw(0xFFFF), -3);
}

#[test]
fn signed_reinterpretation_is_twos_complement() {
    assert_eq!(signed_of_raw(0), 0);
    assert_eq!(signed_of_raw(0x7FFF), 32767);
    assert_eq!(signed_of_raw(0x8000), -32768);
    assert_eq!(signed_of_raw(0xFFFF), -1);
}

#[test]
fn display_line_renders_one_based_channel_and_voltage() {
    let s = AdcSample { channel: 0, raw_value: 0x7FFF, timestamp: 5, is_trigger: false };
    assert_eq!(display_line(&s), "Ch1: 9.9997 V");
    let s = AdcSample { channel: 3, raw_value: 0x8000, timestamp: 5, is_trigger: true };
    assert_eq!(display_line(&s), "Ch4: -10.0000 V");
    let s = AdcSample { channel: 1, raw_value: 0, timestamp: 5, is_trigger: false };
    assert_eq!(display_line(&s), "Ch2: 0.0000 V");
}

#[test]
fn csv_row_renders_all_four_fields() {
    let s = AdcSample { channel: 1, raw_value: 0x8000, timestamp: 123, is_trigger: false };
    assert_eq!(csv_row(&s), "123,1,-10.0000,32768\n");
    let s = AdcSample { channel: 2, raw_value: 3277, timestamp: 98765432109876, is_trigger: true };
    assert_eq!(csv_row(&s), "98765432109876,2,1.0001,3277\n");
}

#[test]
fn log_header_names_the_columns() {
    assert_eq!(log_header_row(), "timestamp,channel,voltage,raw_value\n");
}
