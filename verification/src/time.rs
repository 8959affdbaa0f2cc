//! Utility function to format a run time into `HH:MM:SS.mmm` text.

use crate::digits::{
    dec_rep, three_digit_string, three_digits, two_digit_string, two_digits, u64_string,
};
use vstd::prelude::*;
use vstd::string::StringExecFns;

verus! {

/// The hour component, zero-padded to at least two digits.
pub open spec fn hours_rep(h: nat) -> Seq<char> {
    if h <= 9 {
        seq!['0'] + dec_rep(h)
    } else {
        dec_rep(h)
    }
}

/// The text for a run time of `ms` milliseconds: minutes, seconds and
/// milliseconds as `MM:SS.mmm`, prefixed with `HH:` when the hour component
/// is not zero.
pub open spec fn spec_format(ms: nat) -> Seq<char> {
    let hours = ms / 3600000;
    let minutes = (ms % 3600000) / 60000;
    let seconds = (ms % 60000) / 1000;
    let millis = ms % 1000;
    let tail = two_digits(minutes as int) + seq![':'] + two_digits(seconds as int) + seq!['.']
        + three_digits(millis as int);
    if hours > 0 {
        hours_rep(hours) + seq![':'] + tail
    } else {
        tail
    }
}

/// Formats a run time, given in whole milliseconds, as zero-padded
/// `MM:SS.mmm`, prefixing `HH:` only when the hour component is non-zero.
pub fn format(milliseconds: u64) -> (r: String)
    ensures
        r@ == spec_format(milliseconds as nat),
{
    proof {
        reveal_strlit(":");
        reveal_strlit(".");
        reveal_strlit("0");
    }
    let hours = milliseconds / 3600000;
    let minutes = ((milliseconds % 3600000) / 60000) as u8;
    let seconds = ((milliseconds % 60000) / 1000) as u8;
    let millis = (milliseconds % 1000) as u16;
    let tail = two_digit_string(minutes)
        .concat(":")
        .concat(two_digit_string(seconds).as_str())
        .concat(".")
        .concat(three_digit_string(millis).as_str());
    if hours > 0 {
        let hour_text = if hours <= 9 {
            "0".to_string().concat(u64_string(hours).as_str())
        } else {
            u64_string(hours)
        };
        let r = hour_text.concat(":").concat(tail.as_str());
        proof {
            assert(r@ =~= spec_format(milliseconds as nat));
        }
        r
    } else {
        proof {
            assert(tail@ =~= spec_format(milliseconds as nat));
        }
        tail
    }
}

} // verus!
