//! The universal setup files of the prover, one for each supported power of two.

use vstd::prelude::*;

verus! {

/// Smallest power of two for which a universal setup exists.
pub const SETUP_MIN_POW2: u32 = 20;

/// Largest power of two for which a universal setup exists.
pub const SETUP_MAX_POW2: u32 = 26;

/// The power of two has no universal setup.
#[derive(Clone, Copy, Debug, PartialEq, Eq, Structural)]
pub struct SetupPowerOutOfRange {
    pub power_of_two: u32,
}

/// Checks that a universal setup exists for `power_of_two`, before any download is tried.
pub fn check_setup_power(power_of_two: u32) -> (checked: Result<(), SetupPowerOutOfRange>)
    ensures
        checked == (if SETUP_MIN_POW2 <= power_of_two <= SETUP_MAX_POW2 {
            Ok::<(), SetupPowerOutOfRange>(())
        } else {
            Err::<(), SetupPowerOutOfRange>(SetupPowerOutOfRange { power_of_two })
        }),
{
    if SETUP_MIN_POW2 <= power_of_two && power_of_two <= SETUP_MAX_POW2 {
        Ok(())
    } else {
        Err(SetupPowerOutOfRange { power_of_two })
    }
}

} // verus!
