//! The uptime label: days, hours and minutes since boot.

use vstd::prelude::*;

use crate::storage::{dec_digits, push_decimal_u64};

verus! {

/// At least two decimal digits of `n`.
pub open spec fn two_digits(n: nat) -> Seq<u8> {
    if n < 10 {
        seq![0x30u8] + dec_digits(n)
    } else {
        dec_digits(n)
    }
}

/// "DDD:HHH:MMM" with `D`, `H` and `M` after the days, hours and
/// minutes of `total_secs`, each at least two digits.
pub open spec fn uptime_label(total_secs: u64) -> Seq<u8> {
    let days = total_secs / 86400;
    let hours = total_secs % 86400 / 3600;
    let minutes = total_secs % 3600 / 60;
    two_digits(days as nat) + seq![0x44u8, 0x3Au8] + two_digits(hours as nat) + seq![0x48u8, 0x3Au8]
        + two_digits(minutes as nat) + seq![0x4Du8]
}

fn push_two_digits(out: &mut Vec<u8>, n: u64)
    ensures
        final(out)@ == old(out)@ + two_digits(n as nat),
{
    if n < 10 {
        out.push(0x30);
        push_decimal_u64(out, n);
        assert(final(out)@ =~= old(out)@ + two_digits(n as nat)) by {
            assert(old(out)@.push(0x30u8) + dec_digits(n as nat) =~= old(out)@ + (seq![0x30u8] + dec_digits(n as nat)));
        }
    } else {
        push_decimal_u64(out, n);
    }
}

/// The label of an uptime of `total_secs` seconds (see `uptime_label`);
/// it fits the 16 bytes of the label as long as the days have at most
/// seven digits.
pub fn format_uptime(total_secs: u64) -> (r: Vec<u8>)
    ensures
        r@ == uptime_label(total_secs),
{
    let days = total_secs / 86400;
    let hours = total_secs % 86400 / 3600;
    let minutes = total_secs % 3600 / 60;
    let mut out: Vec<u8> = Vec::new();
    push_two_digits(&mut out, days);
    out.push(0x44);
    out.push(0x3A);
    push_two_digits(&mut out, hours);
    out.push(0x48);
    out.push(0x3A);
    push_two_digits(&mut out, minutes);
    out.push(0x4D);
    assert(out@ =~= uptime_label(total_secs));
    out
}

} // verus!
