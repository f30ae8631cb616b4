//! Error codes in the printer's replies.

use vstd::prelude::*;

verus! {

pub const SUCCESS: i64 = 0;

pub const TOKEN_FAILED: i64 = 1000;

pub const INVALID_PARAMETER: i64 = 1003;

pub const PRINTER_BUSY: i64 = 1009;

pub const NOT_PRINTING: i64 = 1010;

pub const PRINT_FILE_NOT_FOUND: i64 = 1021;

} // verus!
