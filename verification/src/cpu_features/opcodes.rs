//! Whether helpful opcodes are present on the target.
//!
//! The answer is fixed when the crate is built: the constants below describe the target, and
//! nothing is probed while the program runs.

use vstd::prelude::*;

verus! {

/// The target is an ARM core.
pub const TARGET_ARCH_ARM: bool = false;

/// The target is a core of the M profile.
pub const TARGET_FEATURE_MCLASS: bool = false;

/// The target implements version 7 of the architecture.
pub const TARGET_FEATURE_V7: bool = false;

/// A target has a `Count Leading Zeros` instruction when it is an ARM core of the M profile
/// that implements version 7 of the architecture.
pub open spec fn has_count_leading_zeros(arm: bool, mclass: bool, v7: bool) -> bool {
    arm && mclass && v7
}

/// Returns whether a target with the given properties has a `Count Leading Zeros` instruction.
pub fn target_has_count_leading_zeros(arm: bool, mclass: bool, v7: bool) -> (r: bool)
    ensures
        r == has_count_leading_zeros(arm, mclass, v7),
{
    if arm {
        if mclass {
            if v7 {
                true
            } else {
                false
            }
        } else {
            false
        }
    } else {
        false
    }
}

/// Returns whether or not this platform has a `Count Leading Zeros` instruction.
#[inline(always)]
pub fn count_leading_zeros_exists() -> (r: bool)
    ensures
        r == has_count_leading_zeros(TARGET_ARCH_ARM, TARGET_FEATURE_MCLASS, TARGET_FEATURE_V7),
{
    target_has_count_leading_zeros(TARGET_ARCH_ARM, TARGET_FEATURE_MCLASS, TARGET_FEATURE_V7)
}

} // verus!
