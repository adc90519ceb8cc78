//! Codes of the factory-reset status.

use vstd::prelude::*;

verus! {

pub const SUCCESS: u32 = 0;

pub const INVALID_MODE: u32 = 1;

pub const BACKUP_RESTORE_ERROR: u32 = 2;

pub const CONFIG_ERROR: u32 = 3;

}
