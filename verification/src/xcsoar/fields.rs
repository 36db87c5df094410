//! The fixed-width field layout.
//!
//! Each record line holds the seven fields in a fixed order, every decoded
//! character stored as two hexadecimal digits. The byte offsets below are
//! derived from the field lengths, never written out by hand, so the table
//! of lengths is the single source of truth for both codecs.

use vstd::prelude::*;

verus! {

// field lengths in decoded characters
pub const FLARM_ID_LENGTH: usize = 6;

pub const PILOT_NAME_LENGTH: usize = 21;

pub const AIRFIELD_LENGTH: usize = 21;

pub const PLANE_TYPE_LENGTH: usize = 21;

pub const REGISTRATION_LENGTH: usize = 7;

pub const CALL_SIGN_LENGTH: usize = 3;

pub const FREQUENCY_LENGTH: usize = 7;

// field offsets in encoded characters
pub const FLARM_ID_START: usize = 0;

pub const PILOT_NAME_START: usize = FLARM_ID_START + FLARM_ID_LENGTH * 2;

pub const AIRFIELD_START: usize = PILOT_NAME_START + PILOT_NAME_LENGTH * 2;

pub const PLANE_TYPE_START: usize = AIRFIELD_START + AIRFIELD_LENGTH * 2;

pub const REGISTRATION_START: usize = PLANE_TYPE_START + PLANE_TYPE_LENGTH * 2;

pub const CALL_SIGN_START: usize = REGISTRATION_START + REGISTRATION_LENGTH * 2;

pub const FREQUENCY_START: usize = CALL_SIGN_START + CALL_SIGN_LENGTH * 2;

/// Length of one whole encoded record line.
pub const LINE_LENGTH: usize = FREQUENCY_START + FREQUENCY_LENGTH * 2;

} // verus!
