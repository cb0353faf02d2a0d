//! The commands of newcamd messages.

use vstd::prelude::*;

verus! {

pub const MSG_CLIENT_2_SERVER_LOGIN: u8 = 0xE0;

pub const MSG_CLIENT_2_SERVER_LOGIN_ACK: u8 = 0xE1;

pub const MSG_CLIENT_2_SERVER_LOGIN_NAK: u8 = 0xE2;

pub const MSG_CARD_DATA_REQ: u8 = 0xE3;

pub const MSG_CARD_DATA: u8 = 0xE4;

pub const MSG_KEEPALIVE: u8 = 0xFD;

/// First table_id of the DVB CA sections that carry an EMM (an ECM has 0x80 or 0x81).
pub const EMM_TABLE_ID_FIRST: u8 = 0x82;

/// Last table_id of the DVB CA sections that carry an EMM.
pub const EMM_TABLE_ID_LAST: u8 = 0x8F;

} // verus!
