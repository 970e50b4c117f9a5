//! AXP2101 power-management unit: the register values the driver reads
//! and writes. Each operation takes the register contents the caller read
//! over I2C and returns what to write back, or the decoded value.

use vstd::prelude::*;

verus! {

/// I2C address of the PMU.
pub const AXP2101_ADDR: u8 = 0x34;
pub const REG_STATUS1: u8 = 0x00;
pub const REG_STATUS2: u8 = 0x01;
pub const REG_IC_TYPE: u8 = 0x03;
pub const REG_BATFET_CONTROL: u8 = 0x12;
pub const REG_POWEROFF_EN_BEHAVIOR: u8 = 0x22;
pub const REG_KEY_EVENT_TIME: u8 = 0x27;
pub const REG_ADC_ENABLE: u8 = 0x30;
pub const REG_VSYS_POWEROFF: u8 = 0x31;
pub const REG_SYSTEM_CONTROL: u8 = 0x32;
pub const REG_VBAT_H: u8 = 0x34;
pub const REG_VBAT_L: u8 = 0x35;
pub const REG_VBUS_H: u8 = 0x38;
pub const REG_VBUS_L: u8 = 0x39;
pub const REG_VSYS_H: u8 = 0x3A;
pub const REG_VSYS_L: u8 = 0x3B;
pub const REG_IRQ_ENABLE0: u8 = 0x40;
pub const REG_IRQ_ENABLE1: u8 = 0x41;
pub const REG_IRQ_ENABLE2: u8 = 0x42;
pub const REG_IRQ_STATUS0: u8 = 0x48;
pub const REG_IRQ_STATUS1: u8 = 0x49;
pub const REG_IRQ_STATUS2: u8 = 0x4A;
pub const REG_DC_ONOFF: u8 = 0x80;
pub const REG_DC_VOL0: u8 = 0x82;
pub const REG_LDO_ONOFF0: u8 = 0x90;
pub const REG_LDO_VOL0: u8 = 0x92;
pub const REG_BAT_PERCENT: u8 = 0xA4;

/// Charger state from bits 5 to 7 of the second status register.
#[derive(Clone, Copy, PartialEq, Eq, Structural)]
pub enum ChargeStatus {
    NotCharging,
    Charging,
    ChargingDone,
    Unknown,
}

/// How long the power key is held to raise an interrupt.
#[derive(Clone, Copy, PartialEq, Eq, Structural)]
pub enum KeyDurationIrq {
    T1000MS,
    T1500MS,
    T2000MS,
    T2500MS,
}

/// How long the power key is held to power off.
#[derive(Clone, Copy, PartialEq, Eq, Structural)]
pub enum KeyDurationPowerOff {
    T4S,
    T6S,
    T8S,
    T10S,
}

/// How long the power key is held to power on.
#[derive(Clone, Copy, PartialEq, Eq, Structural)]
pub enum KeyDurationPowerOn {
    T128MS,
    T512MS,
    T1000MS,
    T2000MS,
}

pub open spec fn irq_bits(v: KeyDurationIrq) -> u8 {
    match v {
        KeyDurationIrq::T1000MS => 0,
        KeyDurationIrq::T1500MS => 1,
        KeyDurationIrq::T2000MS => 2,
        KeyDurationIrq::T2500MS => 3,
    }
}

pub open spec fn irq_of_bits(b: u8) -> KeyDurationIrq {
    if b % 4 == 0 {
        KeyDurationIrq::T1000MS
    } else if b % 4 == 1 {
        KeyDurationIrq::T1500MS
    } else if b % 4 == 2 {
        KeyDurationIrq::T2000MS
    } else {
        KeyDurationIrq::T2500MS
    }
}

pub open spec fn poweroff_bits(v: KeyDurationPowerOff) -> u8 {
    match v {
        KeyDurationPowerOff::T4S => 0,
        KeyDurationPowerOff::T6S => 1,
        KeyDurationPowerOff::T8S => 2,
        KeyDurationPowerOff::T10S => 3,
    }
}

pub open spec fn poweroff_of_bits(b: u8) -> KeyDurationPowerOff {
    if b % 4 == 0 {
        KeyDurationPowerOff::T4S
    } else if b % 4 == 1 {
        KeyDurationPowerOff::T6S
    } else if b % 4 == 2 {
        KeyDurationPowerOff::T8S
    } else {
        KeyDurationPowerOff::T10S
    }
}

pub open spec fn poweron_bits(v: KeyDurationPowerOn) -> u8 {
    match v {
        KeyDurationPowerOn::T128MS => 0,
        KeyDurationPowerOn::T512MS => 1,
        KeyDurationPowerOn::T1000MS => 2,
        KeyDurationPowerOn::T2000MS => 3,
    }
}

pub open spec fn poweron_of_bits(b: u8) -> KeyDurationPowerOn {
    if b % 4 == 0 {
        KeyDurationPowerOn::T128MS
    } else if b % 4 == 1 {
        KeyDurationPowerOn::T512MS
    } else if b % 4 == 2 {
        KeyDurationPowerOn::T1000MS
    } else {
        KeyDurationPowerOn::T2000MS
    }
}

impl KeyDurationIrq {
    /// The duration the two low bits of `bits` encode.
    pub fn from_bits(bits: u8) -> (r: Self)
        ensures
            r == irq_of_bits(bits),
    {
        let b = bits & 0b11;
        assert(bits & 0b11 == bits % 4) by (bit_vector);
        if b == 0 {
            KeyDurationIrq::T1000MS
        } else if b == 1 {
            KeyDurationIrq::T1500MS
        } else if b == 2 {
            KeyDurationIrq::T2000MS
        } else {
            KeyDurationIrq::T2500MS
        }
    }

    pub fn bits(self) -> (r: u8)
        ensures
            r == irq_bits(self),
    {
        match self {
            KeyDurationIrq::T1000MS => 0,
            KeyDurationIrq::T1500MS => 1,
            KeyDurationIrq::T2000MS => 2,
            KeyDurationIrq::T2500MS => 3,
        }
    }
}

impl KeyDurationPowerOff {
    /// The duration the two low bits of `bits` encode.
    pub fn from_bits(bits: u8) -> (r: Self)
        ensures
            r == poweroff_of_bits(bits),
    {
        let b = bits & 0b11;
        assert(bits & 0b11 == bits % 4) by (bit_vector);
        if b == 0 {
            KeyDurationPowerOff::T4S
        } else if b == 1 {
            KeyDurationPowerOff::T6S
        } else if b == 2 {
            KeyDurationPowerOff::T8S
        } else {
            KeyDurationPowerOff::T10S
        }
    }

    pub fn bits(self) -> (r: u8)
        ensures
            r == poweroff_bits(self),
    {
        match self {
            KeyDurationPowerOff::T4S => 0,
            KeyDurationPowerOff::T6S => 1,
            KeyDurationPowerOff::T8S => 2,
            KeyDurationPowerOff::T10S => 3,
        }
    }
}

impl KeyDurationPowerOn {
    /// The duration the two low bits of `bits` encode.
    pub fn from_bits(bits: u8) -> (r: Self)
        ensures
            r == poweron_of_bits(bits),
    {
        let b = bits & 0b11;
        assert(bits & 0b11 == bits % 4) by (bit_vector);
        if b == 0 {
            KeyDurationPowerOn::T128MS
        } else if b == 1 {
            KeyDurationPowerOn::T512MS
        } else if b == 2 {
            KeyDurationPowerOn::T1000MS
        } else {
            KeyDurationPowerOn::T2000MS
        }
    }

    pub fn bits(self) -> (r: u8)
        ensures
            r == poweron_bits(self),
    {
        match self {
            KeyDurationPowerOn::T128MS => 0,
            KeyDurationPowerOn::T512MS => 1,
            KeyDurationPowerOn::T1000MS => 2,
            KeyDurationPowerOn::T2000MS => 3,
        }
    }
}

/// Settings applied by `Axp2101::init`.
#[derive(Clone, Copy)]
pub struct Axp2101Config {
    /// Turn the ADC on for battery, bus, system voltage and die temperature.
    pub enable_adc: bool,
    /// Leave the die temperature channel off to save power.
    pub trim_adc: bool,
    pub key_irq_duration: KeyDurationIrq,
    pub key_poweroff_duration: KeyDurationPowerOff,
    pub key_poweron_duration: KeyDurationPowerOn,
}

impl Default for Axp2101Config {
    fn default() -> (r: Self)
        ensures
            r.enable_adc && r.trim_adc,
            r.key_irq_duration == KeyDurationIrq::T1000MS,
            r.key_poweroff_duration == KeyDurationPowerOff::T6S,
            r.key_poweron_duration == KeyDurationPowerOn::T512MS,
    {
        Axp2101Config {
            enable_adc: true,
            trim_adc: true,
            key_irq_duration: KeyDurationIrq::T1000MS,
            key_poweroff_duration: KeyDurationPowerOff::T6S,
            key_poweron_duration: KeyDurationPowerOn::T512MS,
        }
    }
}

/// Errors of the driver; `I2c` carries the bus error.
#[derive(Clone, Copy, PartialEq, Eq)]
pub enum Error<E> {
    I2c(E),
    InvalidVoltage,
    InvalidParameter,
}

// ───────────────────────────────────────────────────────────────────────
// BITS OF A REGISTER

pub open spec fn bit_set(val: u8, bit: u8) -> u8 {
    val | (1u8 << bit)
}

pub open spec fn bit_cleared(val: u8, bit: u8) -> u8 {
    val & !(1u8 << bit)
}

pub open spec fn bit_of(val: u8, bit: u8) -> bool {
    val & (1u8 << bit) != 0
}

/// `val` with bit `bit` set.
pub fn set_bit(val: u8, bit: u8) -> (r: u8)
    requires
        bit < 8,
    ensures
        r == bit_set(val, bit),
{
    val | (1u8 << bit)
}

/// `val` with bit `bit` cleared.
pub fn clear_bit(val: u8, bit: u8) -> (r: u8)
    requires
        bit < 8,
    ensures
        r == bit_cleared(val, bit),
{
    val & !(1u8 << bit)
}

/// Bit `bit` of `val`.
pub fn get_bit(val: u8, bit: u8) -> (r: bool)
    requires
        bit < 8,
    ensures
        r == bit_of(val, bit),
{
    val & (1u8 << bit) != 0
}

/// Setting or clearing a bit makes it read back so and leaves the other
/// bits as they were.
pub proof fn lemma_bit_roundtrip(val: u8, bit: u8, other: u8)
    requires
        bit < 8,
        other < 8,
        other != bit,
    ensures
        bit_of(bit_set(val, bit), bit),
        !bit_of(bit_cleared(val, bit), bit),
        bit_of(bit_set(val, bit), other) == bit_of(val, other),
        bit_of(bit_cleared(val, bit), other) == bit_of(val, other),
{
    assert(bit_of(bit_set(val, bit), bit)) by (bit_vector)
        requires
            bit < 8,
    ;
    assert(!bit_of(bit_cleared(val, bit), bit)) by (bit_vector)
        requires
            bit < 8,
    ;
    assert(bit_of(bit_set(val, bit), other) == bit_of(val, other)) by (bit_vector)
        requires
            bit < 8,
            other < 8,
            other != bit,
    ;
    assert(bit_of(bit_cleared(val, bit), other) == bit_of(val, other)) by (bit_vector)
        requires
            bit < 8,
            other < 8,
            other != bit,
    ;
}

// ───────────────────────────────────────────────────────────────────────
// KEY EVENT TIMES (REGISTER 0x27: IRQ BITS 4-5, POWER-OFF 2-3, POWER-ON 0-1)

pub open spec fn with_field(reg: u8, shift: u8, bits: u8) -> u8 {
    (reg & !(3u8 << shift)) | (bits << shift)
}

pub open spec fn field(reg: u8, shift: u8) -> u8 {
    (reg >> shift) & 3
}

fn put_field(reg: u8, shift: u8, bits: u8) -> (r: u8)
    requires
        shift <= 4,
        bits < 4,
    ensures
        r == with_field(reg, shift, bits),
{
    (reg & !(3u8 << shift)) | (bits << shift)
}

/// A two-bit field written into the register reads back as written, and
/// the bits outside the field are kept.
pub proof fn lemma_field_roundtrip(reg: u8, shift: u8, bits: u8)
    requires
        shift == 0 || shift == 2 || shift == 4,
        bits < 4,
    ensures
        field(with_field(reg, shift, bits), shift) == bits,
        with_field(reg, shift, bits) & !(3u8 << shift) == reg & !(3u8 << shift),
{
    assert(field(with_field(reg, shift, bits), shift) == bits) by (bit_vector)
        requires
            shift == 0 || shift == 2 || shift == 4,
            bits < 4,
    ;
    assert(with_field(reg, shift, bits) & !(3u8 << shift) == reg & !(3u8 << shift)) by (bit_vector)
        requires
            shift == 0 || shift == 2 || shift == 4,
            bits < 4,
    ;
}

/// Every duration survives a trip through its bits.
pub proof fn lemma_duration_bits_roundtrip(
    a: KeyDurationIrq,
    b: KeyDurationPowerOff,
    c: KeyDurationPowerOn,
)
    ensures
        irq_of_bits(irq_bits(a)) == a,
        poweroff_of_bits(poweroff_bits(b)) == b,
        poweron_of_bits(poweron_bits(c)) == c,
{
}

// ───────────────────────────────────────────────────────────────────────
// CONVERSIONS

/// Raw 14-bit ADC reading from its high and low registers.
pub open spec fn adc_raw(high: u8, low: u8) -> u16 {
    ((high % 64) * 256 + low) as u16
}

/// Millivolts of a raw ADC reading at 1.1 mV per step.
pub open spec fn adc_millivolts(raw: u16) -> u16 {
    (raw * 11 / 10) as u16
}

fn raw_of(high: u8, low: u8) -> (r: u16)
    ensures
        r == adc_raw(high, low),
        r < 0x4000,
{
    let h = high as u16;
    let l = low as u16;
    assert(((h << 8u16) | l) & 0x3FFF == (h % 64) * 256 + l) by (bit_vector)
        requires
            h < 256,
            l < 256,
    ;
    ((h << 8u16) | l) & 0x3FFF
}

fn millivolts_of(raw: u16) -> (r: u16)
    requires
        raw < 0x4000,
    ensures
        r == adc_millivolts(raw),
{
    (raw as u32 * 11 / 10) as u16
}

/// Charger state from the second status register.
pub open spec fn charge_status_of(status2: u8) -> ChargeStatus {
    let chg = (status2 / 32) % 8;
    if chg == 0 {
        ChargeStatus::NotCharging
    } else if chg <= 3 {
        ChargeStatus::Charging
    } else if chg == 4 {
        ChargeStatus::ChargingDone
    } else {
        ChargeStatus::Unknown
    }
}

/// The charger state by the value of the second status register: not
/// charging below 0x20, charging (trickle, pre-charge or constant
/// current/voltage, bits 7:5 = 1 to 3) from 0x20 below 0x80, done from
/// 0x80 below 0xA0, unknown from 0xA0 on.
pub proof fn lemma_charge_status_ranges(s: u8)
    ensures
        charge_status_of(s) == ChargeStatus::NotCharging <==> s < 0x20,
        charge_status_of(s) == ChargeStatus::Charging <==> 0x20 <= s && s < 0x80,
        charge_status_of(s) == ChargeStatus::ChargingDone <==> 0x80 <= s && s < 0xA0,
        charge_status_of(s) == ChargeStatus::Unknown <==> 0xA0 <= s,
{
}

/// Register value for a rail voltage between `min` and `max` millivolts in
/// steps of 100 mV.
pub open spec fn rail_code(millivolt: u16, min: u16, max: u16) -> Option<u8> {
    if millivolt < min || millivolt > max || millivolt % 100 != 0 {
        None
    } else {
        Some(((millivolt - min) / 100) as u8)
    }
}

/// The PMU driver. It holds no state: every operation works on register
/// values.
#[derive(Clone, Copy)]
pub struct Axp2101;

impl Default for Axp2101 {
    fn default() -> (r: Self) {
        Axp2101::new()
    }
}

/// The register writes of `Axp2101::prepare_deep_sleep`.
pub open spec fn deep_sleep_writes(r31: u8, r90: u8, r12: u8) -> Seq<(u8, u8)> {
    seq![(REG_VSYS_POWEROFF, r31 | 8), (REG_LDO_ONOFF0, r90 | 7), (REG_DC_VOL0, 0u8), (REG_BATFET_CONTROL, r12 & 0xA1)]
}

/// The ADC channel mask `init` writes.
pub open spec fn adc_mask(cfg: Axp2101Config) -> u8 {
    if !cfg.enable_adc {
        0
    } else if cfg.trim_adc {
        0b00001101
    } else {
        0b00011101
    }
}

/// The key event register after `init`: the three durations in their
/// fields, the other bits kept.
pub open spec fn key_times(cfg: Axp2101Config, reg: u8) -> u8 {
    with_field(
        with_field(with_field(reg, 4, irq_bits(cfg.key_irq_duration)), 2, poweroff_bits(cfg.key_poweroff_duration)),
        0,
        poweron_bits(cfg.key_poweron_duration),
    )
}

/// The register writes of `Axp2101::init`, given the on/off registers of
/// the DC and LDO rails and the key event register as read.
pub open spec fn init_writes(cfg: Axp2101Config, dc_onoff: u8, ldo_onoff: u8, key_event: u8) -> Seq<(u8, u8)> {
    seq![
        (REG_DC_VOL0, 18u8),
        (REG_DC_ONOFF, bit_set(dc_onoff, 0)),
        (REG_LDO_VOL0, 28u8),
        (REG_LDO_ONOFF0, bit_set(ldo_onoff, 0)),
        (REG_IRQ_ENABLE0, 0u8),
        (REG_IRQ_ENABLE1, 0u8),
        (REG_IRQ_ENABLE2, 0u8),
        (REG_IRQ_STATUS0, 0xFFu8),
        (REG_IRQ_STATUS1, 0xFFu8),
        (REG_IRQ_STATUS2, 0xFFu8),
        (REG_ADC_ENABLE, adc_mask(cfg)),
        (REG_KEY_EVENT_TIME, key_times(cfg, key_event)),
    ]
}

impl Axp2101 {
    pub fn new() -> (r: Self) {
        Axp2101
    }

    /// The write that powers the PMU off: bit 7 of the system control
    /// register.
    pub fn shutdown(&self, current: u8) -> (r: (u8, u8))
        ensures
            r == (REG_SYSTEM_CONTROL, current | 0x80),
    {
        (REG_SYSTEM_CONTROL, current | 0x80)
    }

    /// The writes that prepare for deep sleep, from the values read from
    /// registers 0x31, 0x90 and 0x12: 3.0 V power-off threshold, GPIO1
    /// floating, ADC off, every output but DCDC1 off.
    pub fn prepare_deep_sleep(&self, r31: u8, r90: u8, r12: u8) -> (r: Vec<(u8, u8)>)
        ensures
            r@ == deep_sleep_writes(r31, r90, r12),
    {
        let mut w: Vec<(u8, u8)> = Vec::new();
        w.push((REG_VSYS_POWEROFF, r31 | (1u8 << 3u8)));
        w.push((REG_LDO_ONOFF0, r90 | 0x07));
        w.push((REG_DC_VOL0, 0x00));
        w.push((REG_BATFET_CONTROL, r12 & 0xA1));
        assert(1u8 << 3u8 == 8) by (bit_vector);
        assert(w@ =~= deep_sleep_writes(r31, r90, r12));
        w
    }

    /// The write that restarts the PMU: bit 6 of the system control
    /// register.
    pub fn restart(&self, current: u8) -> (r: (u8, u8))
        ensures
            r == (REG_SYSTEM_CONTROL, bit_set(current, 6)),
    {
        (REG_SYSTEM_CONTROL, set_bit(current, 6))
    }

    /// The writes that bring the PMU up: DCDC1 and ALDO1 at 3.3 V and on,
    /// interrupts off and cleared, the ADC channels, the key durations.
    pub fn init(&self, cfg: &Axp2101Config, dc_onoff: u8, ldo_onoff: u8, key_event: u8) -> (r: Vec<(u8, u8)>)
        ensures
            r@ == init_writes(*cfg, dc_onoff, ldo_onoff, key_event),
    {
        let mut w: Vec<(u8, u8)> = Vec::new();
        let dc = match self.set_dc1_voltage::<()>(3300) {
            Ok(v) => v,
            Err(_) => 0,
        };
        w.push((REG_DC_VOL0, dc));
        w.push(self.enable_dc1(dc_onoff));
        let aldo = match self.set_aldo1_voltage::<()>(3300) {
            Ok(v) => v,
            Err(_) => 0,
        };
        w.push((REG_LDO_VOL0, aldo));
        w.push(self.enable_aldo1(ldo_onoff));
        w.push((REG_IRQ_ENABLE0, 0x00));
        w.push((REG_IRQ_ENABLE1, 0x00));
        w.push((REG_IRQ_ENABLE2, 0x00));
        w.push((REG_IRQ_STATUS0, 0xFF));
        w.push((REG_IRQ_STATUS1, 0xFF));
        w.push((REG_IRQ_STATUS2, 0xFF));
        let mask: u8 = if cfg.enable_adc {
            if cfg.trim_adc {
                0b00001101
            } else {
                0b00011101
            }
        } else {
            0x00
        };
        w.push((REG_ADC_ENABLE, mask));
        let reg = self.set_key_duration_irq(key_event, cfg.key_irq_duration);
        let reg = self.set_key_duration_power_off(reg, cfg.key_poweroff_duration);
        let reg = self.set_key_duration_power_on(reg, cfg.key_poweron_duration);
        w.push((REG_KEY_EVENT_TIME, reg));
        assert(w@ =~= init_writes(*cfg, dc_onoff, ldo_onoff, key_event));
        w
    }

    /// The write that turns DCDC1 on, from the on/off register.
    pub fn enable_dc1(&self, onoff: u8) -> (r: (u8, u8))
        ensures
            r == (REG_DC_ONOFF, bit_set(onoff, 0)),
    {
        (REG_DC_ONOFF, set_bit(onoff, 0))
    }

    /// The write that turns DCDC1 off.
    pub fn disable_dc1(&self, onoff: u8) -> (r: (u8, u8))
        ensures
            r == (REG_DC_ONOFF, bit_cleared(onoff, 0)),
    {
        (REG_DC_ONOFF, clear_bit(onoff, 0))
    }

    pub fn is_dc1_enabled(&self, onoff: u8) -> (r: bool)
        ensures
            r == bit_of(onoff, 0),
    {
        get_bit(onoff, 0)
    }

    /// Register value for a DCDC1 voltage of 1500 to 3400 mV in 100 mV
    /// steps.
    pub fn set_dc1_voltage<E>(&self, millivolt: u16) -> (r: Result<u8, Error<E>>)
        ensures
            match rail_code(millivolt, 1500, 3400) {
                Some(v) => r == Ok::<u8, Error<E>>(v),
                None => r == Err::<u8, Error<E>>(Error::InvalidVoltage),
            },
    {
        if millivolt < 1500 || millivolt > 3400 || millivolt % 100 != 0 {
            return Err(Error::InvalidVoltage);
        }
        Ok(((millivolt - 1500) / 100) as u8)
    }

    /// DCDC1 voltage in millivolts from its register.
    pub fn get_dc1_voltage(&self, val: u8) -> (r: u16)
        ensures
            r == val * 100 + 1500,
    {
        (val as u16) * 100 + 1500
    }

    /// The write that turns ALDO1 on, from the on/off register.
    pub fn enable_aldo1(&self, onoff: u8) -> (r: (u8, u8))
        ensures
            r == (REG_LDO_ONOFF0, bit_set(onoff, 0)),
    {
        (REG_LDO_ONOFF0, set_bit(onoff, 0))
    }

    /// The write that turns ALDO1 off.
    pub fn disable_aldo1(&self, onoff: u8) -> (r: (u8, u8))
        ensures
            r == (REG_LDO_ONOFF0, bit_cleared(onoff, 0)),
    {
        (REG_LDO_ONOFF0, clear_bit(onoff, 0))
    }

    pub fn is_aldo1_enabled(&self, onoff: u8) -> (r: bool)
        ensures
            r == bit_of(onoff, 0),
    {
        get_bit(onoff, 0)
    }

    /// Register value for an ALDO1 voltage of 500 to 3500 mV in 100 mV
    /// steps.
    pub fn set_aldo1_voltage<E>(&self, millivolt: u16) -> (r: Result<u8, Error<E>>)
        ensures
            match rail_code(millivolt, 500, 3500) {
                Some(v) => r == Ok::<u8, Error<E>>(v),
                None => r == Err::<u8, Error<E>>(Error::InvalidVoltage),
            },
    {
        if millivolt < 500 || millivolt > 3500 || millivolt % 100 != 0 {
            return Err(Error::InvalidVoltage);
        }
        Ok(((millivolt - 500) / 100) as u8)
    }

    /// ALDO1 voltage in millivolts from its register.
    pub fn get_aldo1_voltage(&self, val: u8) -> (r: u16)
        ensures
            r == val * 100 + 500,
    {
        (val as u16) * 100 + 500
    }

    pub fn get_battery_voltage_raw(&self, high: u8, low: u8) -> (r: u16)
        ensures
            r == adc_raw(high, low),
    {
        raw_of(high, low)
    }

    pub fn get_battery_voltage(&self, high: u8, low: u8) -> (r: u16)
        ensures
            r == adc_millivolts(adc_raw(high, low)),
    {
        millivolts_of(raw_of(high, low))
    }

    pub fn get_battery_percent(&self, reg: u8) -> (r: u8)
        ensures
            r == reg,
    {
        reg
    }

    pub fn get_vbus_voltage_raw(&self, high: u8, low: u8) -> (r: u16)
        ensures
            r == adc_raw(high, low),
    {
        raw_of(high, low)
    }

    pub fn get_vbus_voltage(&self, high: u8, low: u8) -> (r: u16)
        ensures
            r == adc_millivolts(adc_raw(high, low)),
    {
        millivolts_of(raw_of(high, low))
    }

    pub fn get_system_voltage_raw(&self, high: u8, low: u8) -> (r: u16)
        ensures
            r == adc_raw(high, low),
    {
        raw_of(high, low)
    }

    pub fn get_system_voltage(&self, high: u8, low: u8) -> (r: u16)
        ensures
            r == adc_millivolts(adc_raw(high, low)),
    {
        millivolts_of(raw_of(high, low))
    }

    /// USB power is present: bit 5 of the first status register.
    pub fn is_vbus_in(&self, status1: u8) -> (r: bool)
        ensures
            r == ((status1 / 32) % 2 == 1),
    {
        assert(status1 & 0x20 != 0 <==> (status1 / 32) % 2 == 1) by (bit_vector);
        status1 & 0x20 != 0
    }

    pub fn get_charge_status(&self, status2: u8) -> (r: ChargeStatus)
        ensures
            r == charge_status_of(status2),
    {
        let chg = (status2 >> 5u8) & 0x07;
        assert((status2 >> 5u8) & 0x07 == (status2 / 32) % 8) by (bit_vector);
        if chg == 0 {
            ChargeStatus::NotCharging
        } else if chg <= 3 {
            ChargeStatus::Charging
        } else if chg == 4 {
            ChargeStatus::ChargingDone
        } else {
            ChargeStatus::Unknown
        }
    }

    pub fn is_charging(&self, status2: u8) -> (r: bool)
        ensures
            r == (charge_status_of(status2) == ChargeStatus::Charging),
    {
        let chg = (status2 >> 5u8) & 0x07;
        assert((status2 >> 5u8) & 0x07 == (status2 / 32) % 8) by (bit_vector);
        chg >= 1 && chg <= 3
    }

    pub fn read_chip_id(&self, reg: u8) -> (r: u8)
        ensures
            r == reg,
    {
        reg
    }

    /// The write that enables the ADC channels in `mask`.
    pub fn set_adc_enable(&self, mask: u8) -> (r: (u8, u8))
        ensures
            r == (REG_ADC_ENABLE, mask),
    {
        (REG_ADC_ENABLE, mask)
    }

    pub fn get_adc_enable(&self, reg: u8) -> (r: u8)
        ensures
            r == reg,
    {
        reg
    }

    /// The power-off behaviour register with "power key turns off" (bit 1)
    /// set to `value`.
    pub fn set_pwron_key_poweroff(&self, reg: u8, value: bool) -> (r: u8)
        ensures
            r == (if value {
                bit_set(reg, 1)
            } else {
                bit_cleared(reg, 1)
            }),
    {
        if value {
            set_bit(reg, 1)
        } else {
            clear_bit(reg, 1)
        }
    }

    /// The power-off behaviour register with "power key restarts" (bit 0)
    /// set to `value`.
    pub fn set_pwron_key_poweroff_but_restart(&self, reg: u8, value: bool) -> (r: u8)
        ensures
            r == (if value {
                bit_set(reg, 0)
            } else {
                bit_cleared(reg, 0)
            }),
    {
        if value {
            set_bit(reg, 0)
        } else {
            clear_bit(reg, 0)
        }
    }

    pub fn key_duration_irq(&self, reg: u8) -> (r: KeyDurationIrq)
        ensures
            r == irq_of_bits(field(reg, 4)),
    {
        KeyDurationIrq::from_bits((reg >> 4u8) & 0b11)
    }

    pub fn set_key_duration_irq(&self, reg: u8, value: KeyDurationIrq) -> (r: u8)
        ensures
            r == with_field(reg, 4, irq_bits(value)),
    {
        put_field(reg, 4, value.bits())
    }

    pub fn key_duration_power_off(&self, reg: u8) -> (r: KeyDurationPowerOff)
        ensures
            r == poweroff_of_bits(field(reg, 2)),
    {
        KeyDurationPowerOff::from_bits((reg >> 2u8) & 0b11)
    }

    pub fn set_key_duration_power_off(&self, reg: u8, value: KeyDurationPowerOff) -> (r: u8)
        ensures
            r == with_field(reg, 2, poweroff_bits(value)),
    {
        put_field(reg, 2, value.bits())
    }

    pub fn key_duration_power_on(&self, reg: u8) -> (r: KeyDurationPowerOn)
        ensures
            r == poweron_of_bits(field(reg, 0)),
    {
        assert((reg >> 0u8) & 3 == reg & 0b11) by (bit_vector);
        KeyDurationPowerOn::from_bits(reg & 0b11)
    }

    pub fn set_key_duration_power_on(&self, reg: u8, value: KeyDurationPowerOn) -> (r: u8)
        ensures
            r == with_field(reg, 0, poweron_bits(value)),
    {
        put_field(reg, 0, value.bits())
    }
}

/// A key duration written with its setter reads back with its getter.
pub proof fn lemma_key_duration_roundtrip(
    reg: u8,
    a: KeyDurationIrq,
    b: KeyDurationPowerOff,
    c: KeyDurationPowerOn,
)
    ensures
        irq_of_bits(field(with_field(reg, 4, irq_bits(a)), 4)) == a,
        poweroff_of_bits(field(with_field(reg, 2, poweroff_bits(b)), 2)) == b,
        poweron_of_bits(field(with_field(reg, 0, poweron_bits(c)), 0)) == c,
{
    lemma_field_roundtrip(reg, 4, irq_bits(a));
    lemma_field_roundtrip(reg, 2, poweroff_bits(b));
    lemma_field_roundtrip(reg, 0, poweron_bits(c));
}

/// A valid rail voltage read back from the register value it is written
/// as is the same voltage.
pub proof fn lemma_rail_voltage_roundtrip(millivolt: u16)
    ensures
        rail_code(millivolt, 1500, 3400) matches Some(v) ==> v * 100 + 1500 == millivolt,
        rail_code(millivolt, 500, 3500) matches Some(v) ==> v * 100 + 500 == millivolt,
{
}

} // verus!
