//! Decoded measurements and trigger policy data.
//!
//! The instrument's full scale is ±10 V over a signed 16-bit payload, so a
//! sample's voltage is exactly `signed_value(raw_value) * 10 / 32768`
//! volts.  That value is always recomputed from `raw_value` — it is never
//! stored redundantly — and this crate carries it as an exact integer
//! count of 10⁻⁴ V, the resolution at which records are rendered.

use vstd::prelude::*;

verus! {

/// One decoded measurement.
///
/// The voltage is not a field: it is derived from `raw_value` (see
/// [`voltage_e4`]) wherever it is needed, so the raw payload stays the
/// single source of truth.
#[derive(Clone, Copy, Debug, PartialEq, Eq, Structural)]
pub struct AdcSample {
    /// Analog input this measurement came from, in [0, 3].
    pub channel: u8,
    /// The exact 16-bit wire payload, interpreted as signed two's
    /// complement for voltage scaling.
    pub raw_value: u16,
    /// Capture time in nanoseconds; non-decreasing across the samples one
    /// decoder instance emits.
    pub timestamp: u128,
    /// Whether the sample counts as the configured trigger event at the
    /// moment of decode (after policy evaluation, not the wire marker).
    pub is_trigger: bool,
}

/// Trigger policy.  Replaced wholesale by each configuration call.
///
/// The threshold is held in raw ADC counts — the same unit as a sample's
/// payload — so `level_raw` stands for a level of
/// `level_raw * 10 / 32768` volts, and comparing a sample's voltage
/// against the level is exactly comparing signed counts.
#[derive(Clone, Copy, Debug, PartialEq, Eq, Structural)]
pub struct TriggerConfig {
    /// Whether triggering is in force at all.
    pub enabled: bool,
    /// The channel whose value participates in the comparison.
    pub channel: u8,
    /// Voltage threshold in raw ADC counts.
    pub level_raw: i16,
    /// True: fire when the voltage is above the level; false: below.
    pub rising_edge: bool,
}

/// The signed two's-complement reading of a 16-bit payload, in
/// [-32768, 32767].
pub open spec fn signed_value(raw: u16) -> int {
    if raw < 0x8000 {
        raw as int
    } else {
        raw as int - 0x10000
    }
}

/// The sample's voltage in units of 10⁻⁴ V: the exact value
/// `signed_value(raw) * 10 / 32768` volts scaled by 10⁴ and rounded to
/// the nearest unit, ties away from zero.  Full scale is thus ±100000.
pub open spec fn voltage_e4(raw: u16) -> int {
    let v = signed_value(raw);
    if v >= 0 {
        (v * 100000 + 16384) / 32768
    } else {
        -(((-v) * 100000 + 16384) / 32768)
    }
}

/// The signed reading of a raw payload.
pub fn signed_of_raw(raw: u16) -> (r: i32)
    ensures
        r as int == signed_value(raw),
{
    if raw < 0x8000 {
        raw as i32
    } else {
        (raw as i32) - 0x10000
    }
}

/// The voltage of a raw payload in units of 10⁻⁴ V (see [`voltage_e4`]).
pub fn voltage_e4_of_raw(raw: u16) -> (r: i32)
    ensures
        r as int == voltage_e4(raw),
        -100000 <= r <= 100000,
{
    let sv: i32 = signed_of_raw(raw);
    if sv >= 0 {
        let m: u64 = sv as u64;
        let q: u64 = (m * 100000 + 16384) / 32768;
        assert(q <= 100000) by (nonlinear_arith)
            requires
                q == (m * 100000 + 16384) / 32768,
                m <= 32767,
        ;
        q as i32
    } else {
        let m: u64 = (-sv) as u64;
        let q: u64 = (m * 100000 + 16384) / 32768;
        assert(q <= 100000) by (nonlinear_arith)
            requires
                q == (m * 100000 + 16384) / 32768,
                m <= 32768,
        ;
        -(q as i32)
    }
}

} // verus!
