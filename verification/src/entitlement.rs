//! The entitlement ladder: a totally ordered set of four rungs used for
//! coarse gating independent of attributes.

use vstd::prelude::*;

verus! {

/// The four rungs, ordered `NoAccess < Basic < Premium < Vip`. An account with no
/// recorded entitlement is at `NoAccess`.
#[derive(Clone, Copy, Debug, PartialEq, Eq, Structural)]
pub enum EntitlementLevel {
    NoAccess,
    Basic,
    Premium,
    Vip,
}

/// Numeric rank of a rung; the order of the ladder is the order of these
/// values.
pub open spec fn spec_level_value(level: EntitlementLevel) -> u8 {
    match level {
        EntitlementLevel::NoAccess => 0,
        EntitlementLevel::Basic => 1,
        EntitlementLevel::Premium => 2,
        EntitlementLevel::Vip => 3,
    }
}

/// Numeric rank of a rung, for comparisons.
pub fn level_value(level: EntitlementLevel) -> (r: u8)
    ensures
        r == spec_level_value(level),
{
    match level {
        EntitlementLevel::NoAccess => 0,
        EntitlementLevel::Basic => 1,
        EntitlementLevel::Premium => 2,
        EntitlementLevel::Vip => 3,
    }
}

/// The rung an entitlement byte names. Bytes `0` to `3` name the four rungs
/// in order; a byte outside the ladder names no rung and yields the bottom
/// one — an out-of-model byte never grants anything.
pub open spec fn spec_level_of_byte(b: u8) -> EntitlementLevel {
    if b == 1 {
        EntitlementLevel::Basic
    } else if b == 2 {
        EntitlementLevel::Premium
    } else if b == 3 {
        EntitlementLevel::Vip
    } else {
        EntitlementLevel::NoAccess
    }
}

/// The rung an entitlement byte names.
pub fn level_of_byte(b: u8) -> (r: EntitlementLevel)
    ensures
        r == spec_level_of_byte(b),
{
    if b == 1 {
        EntitlementLevel::Basic
    } else if b == 2 {
        EntitlementLevel::Premium
    } else if b == 3 {
        EntitlementLevel::Vip
    } else {
        EntitlementLevel::NoAccess
    }
}

/// Every rung satisfies a required level of `NoAccess`: the bottom rung demands
/// nothing, even of an account with no recorded entitlement.
pub proof fn lemma_bottom_level_always_satisfied(level: EntitlementLevel)
    ensures
        spec_level_value(level) >= spec_level_value(EntitlementLevel::NoAccess),
{
}

/// A rung byte within the ladder round-trips through its rung: granting what
/// the byte names yields a level of exactly that rank.
pub proof fn lemma_level_of_byte_value(b: u8)
    requires
        b <= 3,
    ensures
        spec_level_value(spec_level_of_byte(b)) == b,
{
}

} // verus!
