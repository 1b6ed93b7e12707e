//! What the shell takes from the system it runs on, as plain values.

use crate::kernel::common::ColorSupport;
use vstd::prelude::*;

verus! {

/// The colour depth that is taken for granted: the basic colours.
pub fn get_color_support() -> (r: ColorSupport)
    ensures
        r == ColorSupport::Default,
{
    ColorSupport::Default
}

/// The code that a child process ended with: its exit code or, where a
/// signal ended it, the number of the signal.
pub fn get_exit_code(code: Option<i32>, signal: Option<i32>) -> (r: Option<i32>)
    ensures
        r == (match code {
            Some(x) => Some(x),
            None => signal,
        }),
{
    match code {
        Some(x) => Some(x),
        None => signal,
    }
}

} // verus!
