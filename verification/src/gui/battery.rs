//! The battery page's percentage label.

use vstd::prelude::*;

verus! {

/// The label of a charge level: "100%" from 100 up, else the number
/// without a leading zero and a percent sign.
pub open spec fn percent_label(pct: u8) -> Seq<u8> {
    if pct >= 100 {
        seq![0x31u8, 0x30u8, 0x30u8, 0x25u8]
    } else if pct >= 10 {
        seq![(0x30 + pct / 10) as u8, (0x30 + pct % 10) as u8, 0x25u8]
    } else {
        seq![(0x30 + pct) as u8, 0x25u8]
    }
}

/// Writes the label of `pct` (see `percent_label`).
pub fn format_percent(pct: u8) -> (r: Vec<u8>)
    ensures
        r@ == percent_label(pct),
{
    let mut buf: Vec<u8> = Vec::new();
    if pct >= 100 {
        buf.push(0x31);
        buf.push(0x30);
        buf.push(0x30);
    } else {
        let tens = pct / 10;
        let ones = pct % 10;
        if tens > 0 {
            buf.push(0x30 + tens);
        }
        buf.push(0x30 + ones);
    }
    buf.push(0x25);
    assert(buf@ =~= percent_label(pct));
    buf
}

} // verus!
