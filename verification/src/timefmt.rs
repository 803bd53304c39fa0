//! Rendering a duration in seconds as clock text: hours, minutes and
//! seconds, each zero-padded to two digits, the hour field growing as
//! needed beyond two digits.

use vstd::prelude::*;

use crate::chars::char_vec_to_string;
use crate::digits::{dec_digits, push_decimal};

verus! {

/// The decimal rendering of `n`, padded on the left with a zero to at
/// least two characters.
pub open spec fn padded_decimal(n: int) -> Seq<char> {
    if n < 10 {
        seq!['0'] + dec_digits(n)
    } else {
        dec_digits(n)
    }
}

/// A duration of `total_seconds` as shown on a clock: `HH:MM:SS`, with the
/// hour field widening past two digits when the duration calls for it.
pub open spec fn clock_format(total_seconds: u64) -> Seq<char> {
    padded_decimal(total_seconds as int / 3600) + seq![':'] + padded_decimal(
        (total_seconds as int / 60) % 60,
    ) + seq![':'] + padded_decimal(total_seconds as int % 60)
}

fn push_padded(out: &mut Vec<char>, n: u64)
    ensures
        final(out)@ == old(out)@ + padded_decimal(n as int),
{
    if n < 10 {
        out.push('0');
    }
    push_decimal(out, n);
    proof {
        assert(final(out)@ =~= old(out)@ + padded_decimal(n as int));
    }
}

/// Formats `total_seconds` as zero-padded `HH:MM:SS` text.
pub fn format_duration(total_seconds: u64) -> (r: String)
    ensures
        r@ == clock_format(total_seconds),
{
    let mut out: Vec<char> = Vec::new();
    push_padded(&mut out, total_seconds / 3600);
    out.push(':');
    push_padded(&mut out, (total_seconds / 60) % 60);
    out.push(':');
    push_padded(&mut out, total_seconds % 60);
    proof {
        assert((total_seconds / 3600) as int == total_seconds as int / 3600);
        assert(((total_seconds / 60) % 60) as int == (total_seconds as int / 60) % 60);
        assert((total_seconds % 60) as int == total_seconds as int % 60);
        assert(out@ =~= clock_format(total_seconds));
    }
    char_vec_to_string(&out)
}

} // verus!
