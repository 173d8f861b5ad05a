//! CHERI capability permissions

use vstd::prelude::*;

verus! {

pub const LOAD: u32 = 1;
pub const STORE: u32 = 2;
pub const EXECUTE: u32 = 4;
pub const LOAD_CAP: u32 = 8;
pub const STORE_CAP: u32 = 16;
pub const LOAD_MUTABLE: u32 = 32;
pub const STORE_LOCAL: u32 = 64;
pub const SEAL: u32 = 128;
pub const ALL: u32 = 0xFF;
pub const READ_WRITE: u32 = LOAD | STORE | LOAD_CAP | STORE_CAP;

} // verus!
