//! Names of the variables in the bootloader's environment.

use vstd::prelude::*;

verus! {

/// Holds the factory-reset request as JSON.
pub const FACTORY_RESET: &'static str = "factory-reset";

/// Set once the data partition has been resized.
pub const RESIZED_DATA: &'static str = "resized-data";

/// Tells whether an update is to be validated, or has failed to.
pub const OMNECT_VALIDATE_UPDATE: &'static str = "omnect_validate_update";

/// Set when an update has replaced the bootloader.
pub const OMNECT_BOOTLOADER_UPDATED: &'static str = "omnect_bootloader_updated";

}
