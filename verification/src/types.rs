//! The closed table of event-type names.  A record's type is only
//! meaningful for this versioned set of kernel-defined codes; a value
//! outside it is a fatal decode error for the record.

use vstd::prelude::*;

verus! {

/// Whether a type value lies in the closed symbolic table.
pub open spec fn is_known_type(t: u16) -> bool {
    t == 0x00 || t == 0x01 || t == 0x02 || t == 0x03 || t == 0x04 || t == 0x05 || t == 0x11 || t == 0x12 || t == 0x14 || t == 0x15 || t == 0x16 || t == 0x17 || t == 0x1f || t == 0x20
}

/// The symbolic name of a known type; empty outside the table.
pub open spec fn spec_type_name(t: u16) -> Seq<char> {
    if t == 0x00 {
        "EV_SYN"@
    } else if t == 0x01 {
        "EV_KEY"@
    } else if t == 0x02 {
        "EV_REL"@
    } else if t == 0x03 {
        "EV_ABS"@
    } else if t == 0x04 {
        "EV_MSC"@
    } else if t == 0x05 {
        "EV_SW"@
    } else if t == 0x11 {
        "EV_LED"@
    } else if t == 0x12 {
        "EV_SND"@
    } else if t == 0x14 {
        "EV_REP"@
    } else if t == 0x15 {
        "EV_FF"@
    } else if t == 0x16 {
        "EV_PWR"@
    } else if t == 0x17 {
        "EV_FF_STATUS"@
    } else if t == 0x1f {
        "EV_MAX"@
    } else if t == 0x20 {
        "EV_CNT"@
    } else {
        Seq::<char>::empty()
    }
}

/// The symbolic name of an event type from the closed table.
pub fn type_(bytes: u16) -> (r: &'static str)
    requires
        is_known_type(bytes),
    ensures
        r@ == spec_type_name(bytes),
{
    if bytes == 0x00 {
        "EV_SYN"
    } else if bytes == 0x01 {
        "EV_KEY"
    } else if bytes == 0x02 {
        "EV_REL"
    } else if bytes == 0x03 {
        "EV_ABS"
    } else if bytes == 0x04 {
        "EV_MSC"
    } else if bytes == 0x05 {
        "EV_SW"
    } else if bytes == 0x11 {
        "EV_LED"
    } else if bytes == 0x12 {
        "EV_SND"
    } else if bytes == 0x14 {
        "EV_REP"
    } else if bytes == 0x15 {
        "EV_FF"
    } else if bytes == 0x16 {
        "EV_PWR"
    } else if bytes == 0x17 {
        "EV_FF_STATUS"
    } else if bytes == 0x1f {
        "EV_MAX"
    } else if bytes == 0x20 {
        "EV_CNT"
    } else {
        assert(false);
        ""
    }
}

/// As `type_`, for any value: nothing outside the table.
pub fn lookup_type(bytes: u16) -> (r: Option<&'static str>)
    ensures
        match r {
            Some(s) => is_known_type(bytes) && s@ == spec_type_name(bytes),
            None => !is_known_type(bytes),
        },
{
    if bytes == 0x00 || bytes == 0x01 || bytes == 0x02 || bytes == 0x03 || bytes == 0x04 || bytes == 0x05 || bytes == 0x11 || bytes == 0x12 || bytes == 0x14 || bytes == 0x15 || bytes == 0x16 || bytes == 0x17 || bytes == 0x1f || bytes == 0x20 {
        Some(type_(bytes))
    } else {
        None
    }
}

} // verus!
