//! The wire-record decoder: a fixed 24-byte little-endian record carries a
//! timestamp (seconds and microseconds), a 16-bit type, a 16-bit code and a
//! signed 32-bit value.  Decoding is a pure byte-to-field transform; the
//! symbolic names of types and codes live in their own tables.

use vstd::prelude::*;

use crate::numbers::le16;
use crate::numbers::le32;
use crate::numbers::le32_signed;
use crate::numbers::read_le_i32;
use crate::numbers::read_le_u16;
use crate::numbers::read_le_u32;

verus! {

/// The number of bytes in one wire record.
pub const RECORD_SIZE: usize = 24;

/// The timestamp half of a wire record.
#[derive(Clone, Copy, Debug, PartialEq, Eq, Structural)]
#[allow(non_camel_case_types)]
pub struct timeval {
    pub tv_sec: i32,
    pub tv_usec: u32,
}

/// One decoded wire record.
#[derive(Clone, Copy, Debug, PartialEq, Eq, Structural)]
#[allow(non_camel_case_types)]
pub struct input_event {
    pub time: timeval,
    pub type_: u16,
    pub code: u16,
    pub value: i32,
}

/// The timestamp written by the first eight bytes of a record.
pub open spec fn spec_timeval(b: Seq<u8>) -> timeval {
    timeval {
        tv_sec: le32_signed(b[0], b[1], b[2], b[3]) as i32,
        tv_usec: le32(b[4], b[5], b[6], b[7]) as u32,
    }
}

/// The record written by 24 bytes: bytes 0-7 the timestamp, bytes 12-15 the
/// signed value, bytes 16-17 the type and bytes 18-19 the code, all
/// little-endian.
pub open spec fn spec_event(b: Seq<u8>) -> input_event {
    input_event {
        time: spec_timeval(b),
        type_: le16(b[16], b[17]) as u16,
        code: le16(b[18], b[19]) as u16,
        value: le32_signed(b[12], b[13], b[14], b[15]) as i32,
    }
}

impl timeval {
    /// Decodes the eight timestamp bytes: seconds first, microseconds
    /// second, each little-endian.
    pub fn from_bytes(bytes: [u8; 8]) -> (r: timeval)
        ensures
            r == spec_timeval(bytes@),
    {
        timeval {
            tv_sec: read_le_i32(bytes[0], bytes[1], bytes[2], bytes[3]),
            tv_usec: read_le_u32(bytes[4], bytes[5], bytes[6], bytes[7]),
        }
    }
}

impl input_event {
    /// Decodes one 24-byte wire record.
    pub fn from_bytes(bytes: &[u8; 24]) -> (r: input_event)
        ensures
            r == spec_event(bytes@),
    {
        input_event {
            time: timeval::from_bytes(
                [
                    bytes[0],
                    bytes[1],
                    bytes[2],
                    bytes[3],
                    bytes[4],
                    bytes[5],
                    bytes[6],
                    bytes[7],
                ],
            ),
            type_: read_le_u16(bytes[16], bytes[17]),
            code: read_le_u16(bytes[18], bytes[19]),
            value: read_le_i32(bytes[12], bytes[13], bytes[14], bytes[15]),
        }
    }
}

} // verus!
