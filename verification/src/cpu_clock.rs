//! Run-time CPU frequency switching: which of the three clock speeds a
//! request gets, and the values written to the two clock registers.

use vstd::prelude::*;

verus! {

/// Address of the system peripheral block.
pub const SYSTEM_BASE: u32 = 0x600C_0000;
/// Offset of the system clock configuration register.
pub const SYSCLK_CONF_OFFSET: u32 = 0x058;
/// Offset of the CPU period configuration register.
pub const CPU_PER_CONF_OFFSET: u32 = 0x068;

/// The speed a request for `mhz` gets: 80 up to 80 MHz, 160 up to
/// 160 MHz, 240 above.
pub open spec fn actual_mhz(mhz: u16) -> u16 {
    if mhz <= 80 {
        80
    } else if mhz <= 160 {
        160
    } else {
        240
    }
}

/// The CPU period selector of a speed: 0, 1 or 2.
pub open spec fn period_sel(mhz: u16) -> u32 {
    if mhz <= 80 {
        0
    } else if mhz <= 160 {
        1
    } else {
        2
    }
}

/// The system clock register with its source field (bits 14 and 15) set
/// to the PLL.
pub open spec fn sysclk_with_pll(sysclk: u32) -> u32 {
    (sysclk & !(3u32 << 14u32)) | (1u32 << 14u32)
}

/// The CPU period register with its low three bits replaced: the 480 MHz
/// PLL bit (bit 2) set and the period selector below it.
pub open spec fn cpu_per_with(cpu_per: u32, sel: u32) -> u32 {
    (cpu_per & !7u32) | 4u32 | sel
}

/// Switches to the speed closest above `mhz` (at most 240 MHz): from the
/// current system clock and CPU period registers, the values to write to
/// them, and the speed that is then running.
pub fn set_cpu_mhz(mhz: u16, sysclk: u32, cpu_per: u32) -> (r: (u32, u32, u16))
    ensures
        r.0 == sysclk_with_pll(sysclk),
        r.1 == cpu_per_with(cpu_per, period_sel(mhz)),
        r.2 == actual_mhz(mhz),
        r.1 & 7 == 4 + period_sel(mhz),
{
    let (sel, actual): (u32, u16) = if mhz <= 80 {
        (0, 80)
    } else if mhz <= 160 {
        (1, 160)
    } else {
        (2, 240)
    };
    let sc = (sysclk & !(3u32 << 14u32)) | (1u32 << 14u32);
    let cp = (cpu_per & !7u32) | 4u32 | sel;
    assert(((cpu_per & !7u32) | 4u32 | sel) & 7 == 4 + sel) by (bit_vector)
        requires
            sel <= 2,
    ;
    (sc, cp, actual)
}

} // verus!
