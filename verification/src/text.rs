//! The fixed byte strings of the registry grammar and of the rendered
//! event lines: each as a spec sequence, with an executable copy proved
//! equal to it, and, for the grammar tokens, which separator bytes it is
//! free of.

use vstd::prelude::*;

use crate::bytes::EQ;
use crate::bytes::NL;
use crate::bytes::SP;
use crate::bytes::sep_free;

verus! {

/// `"I: "`: the identifier line tag.
pub open spec fn t_i() -> Seq<u8> {
    seq![73u8, 58u8, 32u8]
}

/// The bytes of `t_i`, for executable code.
pub fn t_i_v() -> (r: Vec<u8>)
    ensures
        r@ == t_i(),
{
    let mut r: Vec<u8> = Vec::new();
    r.push(73);
    r.push(58);
    r.push(32);
    proof {
        assert(r@ =~= t_i());
    }
    r
}

/// Which separator bytes `t_i` is free of.
pub proof fn t_i_free()
    ensures
        sep_free(t_i(), NL),
        sep_free(t_i(), EQ),
{
    assert forall|i: int| 0 <= i < t_i().len() implies t_i()[i] != 10 && t_i()[i] != 61 by {
        if i == 0 {
            assert(t_i()[0] == 73);
        } else if i == 1 {
            assert(t_i()[1] == 58);
        } else if i == 2 {
            assert(t_i()[2] == 32);
        } else {
        }
    }
}

/// `"Bus="`: the bus key of the identifier line.
pub open spec fn t_bus() -> Seq<u8> {
    seq![66u8, 117u8, 115u8, 61u8]
}

/// The bytes of `t_bus`, for executable code.
pub fn t_bus_v() -> (r: Vec<u8>)
    ensures
        r@ == t_bus(),
{
    let mut r: Vec<u8> = Vec::new();
    r.push(66);
    r.push(117);
    r.push(115);
    r.push(61);
    proof {
        assert(r@ =~= t_bus());
    }
    r
}

/// Which separator bytes `t_bus` is free of.
pub proof fn t_bus_free()
    ensures
        sep_free(t_bus(), NL),
        sep_free(t_bus(), SP),
{
    assert forall|i: int| 0 <= i < t_bus().len() implies t_bus()[i] != 10 && t_bus()[i] != 32 by {
        if i == 0 {
            assert(t_bus()[0] == 66);
        } else if i == 1 {
            assert(t_bus()[1] == 117);
        } else if i == 2 {
            assert(t_bus()[2] == 115);
        } else if i == 3 {
            assert(t_bus()[3] == 61);
        } else {
        }
    }
}

/// `"Vendor="`: the vendor key of the identifier line.
pub open spec fn t_vendor() -> Seq<u8> {
    seq![86u8, 101u8, 110u8, 100u8, 111u8, 114u8, 61u8]
}

/// The bytes of `t_vendor`, for executable code.
pub fn t_vendor_v() -> (r: Vec<u8>)
    ensures
        r@ == t_vendor(),
{
    let mut r: Vec<u8> = Vec::new();
    r.push(86);
    r.push(101);
    r.push(110);
    r.push(100);
    r.push(111);
    r.push(114);
    r.push(61);
    proof {
        assert(r@ =~= t_vendor());
    }
    r
}

/// Which separator bytes `t_vendor` is free of.
pub proof fn t_vendor_free()
    ensures
        sep_free(t_vendor(), NL),
        sep_free(t_vendor(), SP),
{
    assert forall|i: int| 0 <= i < t_vendor().len() implies t_vendor()[i] != 10 && t_vendor()[i] != 32 by {
        if i == 0 {
            assert(t_vendor()[0] == 86);
        } else if i == 1 {
            assert(t_vendor()[1] == 101);
        } else if i == 2 {
            assert(t_vendor()[2] == 110);
        } else if i == 3 {
            assert(t_vendor()[3] == 100);
        } else if i == 4 {
            assert(t_vendor()[4] == 111);
        } else if i == 5 {
            assert(t_vendor()[5] == 114);
        } else if i == 6 {
            assert(t_vendor()[6] == 61);
        } else {
        }
    }
}

/// `"Product="`: the product key of the identifier line.
pub open spec fn t_product() -> Seq<u8> {
    seq![80u8, 114u8, 111u8, 100u8, 117u8, 99u8, 116u8, 61u8]
}

/// The bytes of `t_product`, for executable code.
pub fn t_product_v() -> (r: Vec<u8>)
    ensures
        r@ == t_product(),
{
    let mut r: Vec<u8> = Vec::new();
    r.push(80);
    r.push(114);
    r.push(111);
    r.push(100);
    r.push(117);
    r.push(99);
    r.push(116);
    r.push(61);
    proof {
        assert(r@ =~= t_product());
    }
    r
}

/// Which separator bytes `t_product` is free of.
pub proof fn t_product_free()
    ensures
        sep_free(t_product(), NL),
        sep_free(t_product(), SP),
{
    assert forall|i: int| 0 <= i < t_product().len() implies t_product()[i] != 10 && t_product()[i] != 32 by {
        if i == 0 {
            assert(t_product()[0] == 80);
        } else if i == 1 {
            assert(t_product()[1] == 114);
        } else if i == 2 {
            assert(t_product()[2] == 111);
        } else if i == 3 {
            assert(t_product()[3] == 100);
        } else if i == 4 {
            assert(t_product()[4] == 117);
        } else if i == 5 {
            assert(t_product()[5] == 99);
        } else if i == 6 {
            assert(t_product()[6] == 116);
        } else if i == 7 {
            assert(t_product()[7] == 61);
        } else {
        }
    }
}

/// `"Version="`: the version key of the identifier line.
pub open spec fn t_version() -> Seq<u8> {
    seq![86u8, 101u8, 114u8, 115u8, 105u8, 111u8, 110u8, 61u8]
}

/// The bytes of `t_version`, for executable code.
pub fn t_version_v() -> (r: Vec<u8>)
    ensures
        r@ == t_version(),
{
    let mut r: Vec<u8> = Vec::new();
    r.push(86);
    r.push(101);
    r.push(114);
    r.push(115);
    r.push(105);
    r.push(111);
    r.push(110);
    r.push(61);
    proof {
        assert(r@ =~= t_version());
    }
    r
}

/// Which separator bytes `t_version` is free of.
pub proof fn t_version_free()
    ensures
        sep_free(t_version(), NL),
        sep_free(t_version(), SP),
{
    assert forall|i: int| 0 <= i < t_version().len() implies t_version()[i] != 10 && t_version()[i] != 32 by {
        if i == 0 {
            assert(t_version()[0] == 86);
        } else if i == 1 {
            assert(t_version()[1] == 101);
        } else if i == 2 {
            assert(t_version()[2] == 114);
        } else if i == 3 {
            assert(t_version()[3] == 115);
        } else if i == 4 {
            assert(t_version()[4] == 105);
        } else if i == 5 {
            assert(t_version()[5] == 111);
        } else if i == 6 {
            assert(t_version()[6] == 110);
        } else if i == 7 {
            assert(t_version()[7] == 61);
        } else {
        }
    }
}

/// `"N: Name="`: the name line tag.
pub open spec fn t_n() -> Seq<u8> {
    seq![78u8, 58u8, 32u8, 78u8, 97u8, 109u8, 101u8, 61u8]
}

/// The bytes of `t_n`, for executable code.
pub fn t_n_v() -> (r: Vec<u8>)
    ensures
        r@ == t_n(),
{
    let mut r: Vec<u8> = Vec::new();
    r.push(78);
    r.push(58);
    r.push(32);
    r.push(78);
    r.push(97);
    r.push(109);
    r.push(101);
    r.push(61);
    proof {
        assert(r@ =~= t_n());
    }
    r
}

/// Which separator bytes `t_n` is free of.
pub proof fn t_n_free()
    ensures
        sep_free(t_n(), NL),
{
    assert forall|i: int| 0 <= i < t_n().len() implies t_n()[i] != 10 by {
        if i == 0 {
            assert(t_n()[0] == 78);
        } else if i == 1 {
            assert(t_n()[1] == 58);
        } else if i == 2 {
            assert(t_n()[2] == 32);
        } else if i == 3 {
            assert(t_n()[3] == 78);
        } else if i == 4 {
            assert(t_n()[4] == 97);
        } else if i == 5 {
            assert(t_n()[5] == 109);
        } else if i == 6 {
            assert(t_n()[6] == 101);
        } else if i == 7 {
            assert(t_n()[7] == 61);
        } else {
        }
    }
}

/// `"P: Phys="`: the physical-path line tag.
pub open spec fn t_p() -> Seq<u8> {
    seq![80u8, 58u8, 32u8, 80u8, 104u8, 121u8, 115u8, 61u8]
}

/// The bytes of `t_p`, for executable code.
pub fn t_p_v() -> (r: Vec<u8>)
    ensures
        r@ == t_p(),
{
    let mut r: Vec<u8> = Vec::new();
    r.push(80);
    r.push(58);
    r.push(32);
    r.push(80);
    r.push(104);
    r.push(121);
    r.push(115);
    r.push(61);
    proof {
        assert(r@ =~= t_p());
    }
    r
}

/// Which separator bytes `t_p` is free of.
pub proof fn t_p_free()
    ensures
        sep_free(t_p(), NL),
{
    assert forall|i: int| 0 <= i < t_p().len() implies t_p()[i] != 10 by {
        if i == 0 {
            assert(t_p()[0] == 80);
        } else if i == 1 {
            assert(t_p()[1] == 58);
        } else if i == 2 {
            assert(t_p()[2] == 32);
        } else if i == 3 {
            assert(t_p()[3] == 80);
        } else if i == 4 {
            assert(t_p()[4] == 104);
        } else if i == 5 {
            assert(t_p()[5] == 121);
        } else if i == 6 {
            assert(t_p()[6] == 115);
        } else if i == 7 {
            assert(t_p()[7] == 61);
        } else {
        }
    }
}

/// `"S: Sysfs="`: the sysfs-path line tag.
pub open spec fn t_s() -> Seq<u8> {
    seq![83u8, 58u8, 32u8, 83u8, 121u8, 115u8, 102u8, 115u8, 61u8]
}

/// The bytes of `t_s`, for executable code.
pub fn t_s_v() -> (r: Vec<u8>)
    ensures
        r@ == t_s(),
{
    let mut r: Vec<u8> = Vec::new();
    r.push(83);
    r.push(58);
    r.push(32);
    r.push(83);
    r.push(121);
    r.push(115);
    r.push(102);
    r.push(115);
    r.push(61);
    proof {
        assert(r@ =~= t_s());
    }
    r
}

/// Which separator bytes `t_s` is free of.
pub proof fn t_s_free()
    ensures
        sep_free(t_s(), NL),
{
    assert forall|i: int| 0 <= i < t_s().len() implies t_s()[i] != 10 by {
        if i == 0 {
            assert(t_s()[0] == 83);
        } else if i == 1 {
            assert(t_s()[1] == 58);
        } else if i == 2 {
            assert(t_s()[2] == 32);
        } else if i == 3 {
            assert(t_s()[3] == 83);
        } else if i == 4 {
            assert(t_s()[4] == 121);
        } else if i == 5 {
            assert(t_s()[5] == 115);
        } else if i == 6 {
            assert(t_s()[6] == 102);
        } else if i == 7 {
            assert(t_s()[7] == 115);
        } else if i == 8 {
            assert(t_s()[8] == 61);
        } else {
        }
    }
}

/// `"U: Uniq="`: the unique-id line tag.
pub open spec fn t_u() -> Seq<u8> {
    seq![85u8, 58u8, 32u8, 85u8, 110u8, 105u8, 113u8, 61u8]
}

/// The bytes of `t_u`, for executable code.
pub fn t_u_v() -> (r: Vec<u8>)
    ensures
        r@ == t_u(),
{
    let mut r: Vec<u8> = Vec::new();
    r.push(85);
    r.push(58);
    r.push(32);
    r.push(85);
    r.push(110);
    r.push(105);
    r.push(113);
    r.push(61);
    proof {
        assert(r@ =~= t_u());
    }
    r
}

/// Which separator bytes `t_u` is free of.
pub proof fn t_u_free()
    ensures
        sep_free(t_u(), NL),
{
    assert forall|i: int| 0 <= i < t_u().len() implies t_u()[i] != 10 by {
        if i == 0 {
            assert(t_u()[0] == 85);
        } else if i == 1 {
            assert(t_u()[1] == 58);
        } else if i == 2 {
            assert(t_u()[2] == 32);
        } else if i == 3 {
            assert(t_u()[3] == 85);
        } else if i == 4 {
            assert(t_u()[4] == 110);
        } else if i == 5 {
            assert(t_u()[5] == 105);
        } else if i == 6 {
            assert(t_u()[6] == 113);
        } else if i == 7 {
            assert(t_u()[7] == 61);
        } else {
        }
    }
}

/// `"H: Handlers="`: the handlers line tag.
pub open spec fn t_h() -> Seq<u8> {
    seq![72u8, 58u8, 32u8, 72u8, 97u8, 110u8, 100u8, 108u8, 101u8, 114u8, 115u8, 61u8]
}

/// The bytes of `t_h`, for executable code.
pub fn t_h_v() -> (r: Vec<u8>)
    ensures
        r@ == t_h(),
{
    let mut r: Vec<u8> = Vec::new();
    r.push(72);
    r.push(58);
    r.push(32);
    r.push(72);
    r.push(97);
    r.push(110);
    r.push(100);
    r.push(108);
    r.push(101);
    r.push(114);
    r.push(115);
    r.push(61);
    proof {
        assert(r@ =~= t_h());
    }
    r
}

/// Which separator bytes `t_h` is free of.
pub proof fn t_h_free()
    ensures
        sep_free(t_h(), NL),
{
    assert forall|i: int| 0 <= i < t_h().len() implies t_h()[i] != 10 by {
        if i == 0 {
            assert(t_h()[0] == 72);
        } else if i == 1 {
            assert(t_h()[1] == 58);
        } else if i == 2 {
            assert(t_h()[2] == 32);
        } else if i == 3 {
            assert(t_h()[3] == 72);
        } else if i == 4 {
            assert(t_h()[4] == 97);
        } else if i == 5 {
            assert(t_h()[5] == 110);
        } else if i == 6 {
            assert(t_h()[6] == 100);
        } else if i == 7 {
            assert(t_h()[7] == 108);
        } else if i == 8 {
            assert(t_h()[8] == 101);
        } else if i == 9 {
            assert(t_h()[9] == 114);
        } else if i == 10 {
            assert(t_h()[10] == 115);
        } else if i == 11 {
            assert(t_h()[11] == 61);
        } else {
        }
    }
}

/// `"B: "`: the bitmap line tag.
pub open spec fn t_b() -> Seq<u8> {
    seq![66u8, 58u8, 32u8]
}

/// The bytes of `t_b`, for executable code.
pub fn t_b_v() -> (r: Vec<u8>)
    ensures
        r@ == t_b(),
{
    let mut r: Vec<u8> = Vec::new();
    r.push(66);
    r.push(58);
    r.push(32);
    proof {
        assert(r@ =~= t_b());
    }
    r
}

/// Which separator bytes `t_b` is free of.
pub proof fn t_b_free()
    ensures
        sep_free(t_b(), NL),
        sep_free(t_b(), EQ),
{
    assert forall|i: int| 0 <= i < t_b().len() implies t_b()[i] != 10 && t_b()[i] != 61 by {
        if i == 0 {
            assert(t_b()[0] == 66);
        } else if i == 1 {
            assert(t_b()[1] == 58);
        } else if i == 2 {
            assert(t_b()[2] == 32);
        } else {
        }
    }
}

/// `"PROP"`: the property-bitmap category.
pub open spec fn c_prop() -> Seq<u8> {
    seq![80u8, 82u8, 79u8, 80u8]
}

/// The bytes of `c_prop`, for executable code.
pub fn c_prop_v() -> (r: Vec<u8>)
    ensures
        r@ == c_prop(),
{
    let mut r: Vec<u8> = Vec::new();
    r.push(80);
    r.push(82);
    r.push(79);
    r.push(80);
    proof {
        assert(r@ =~= c_prop());
    }
    r
}

/// Which separator bytes `c_prop` is free of.
pub proof fn c_prop_free()
    ensures
        sep_free(c_prop(), NL),
        sep_free(c_prop(), SP),
        sep_free(c_prop(), EQ),
{
    assert forall|i: int| 0 <= i < c_prop().len() implies c_prop()[i] != 10 && c_prop()[i] != 32 && c_prop()[i] != 61 by {
        if i == 0 {
            assert(c_prop()[0] == 80);
        } else if i == 1 {
            assert(c_prop()[1] == 82);
        } else if i == 2 {
            assert(c_prop()[2] == 79);
        } else if i == 3 {
            assert(c_prop()[3] == 80);
        } else {
        }
    }
}

/// `"EV"`: the event-type-bitmap category.
pub open spec fn c_ev() -> Seq<u8> {
    seq![69u8, 86u8]
}

/// The bytes of `c_ev`, for executable code.
pub fn c_ev_v() -> (r: Vec<u8>)
    ensures
        r@ == c_ev(),
{
    let mut r: Vec<u8> = Vec::new();
    r.push(69);
    r.push(86);
    proof {
        assert(r@ =~= c_ev());
    }
    r
}

/// Which separator bytes `c_ev` is free of.
pub proof fn c_ev_free()
    ensures
        sep_free(c_ev(), NL),
        sep_free(c_ev(), SP),
        sep_free(c_ev(), EQ),
{
    assert forall|i: int| 0 <= i < c_ev().len() implies c_ev()[i] != 10 && c_ev()[i] != 32 && c_ev()[i] != 61 by {
        if i == 0 {
            assert(c_ev()[0] == 69);
        } else if i == 1 {
            assert(c_ev()[1] == 86);
        } else {
        }
    }
}

/// `"KEY"`: the key-bitmap category, kept as text.
pub open spec fn c_key() -> Seq<u8> {
    seq![75u8, 69u8, 89u8]
}

/// The bytes of `c_key`, for executable code.
pub fn c_key_v() -> (r: Vec<u8>)
    ensures
        r@ == c_key(),
{
    let mut r: Vec<u8> = Vec::new();
    r.push(75);
    r.push(69);
    r.push(89);
    proof {
        assert(r@ =~= c_key());
    }
    r
}

/// Which separator bytes `c_key` is free of.
pub proof fn c_key_free()
    ensures
        sep_free(c_key(), NL),
        sep_free(c_key(), SP),
        sep_free(c_key(), EQ),
{
    assert forall|i: int| 0 <= i < c_key().len() implies c_key()[i] != 10 && c_key()[i] != 32 && c_key()[i] != 61 by {
        if i == 0 {
            assert(c_key()[0] == 75);
        } else if i == 1 {
            assert(c_key()[1] == 69);
        } else if i == 2 {
            assert(c_key()[2] == 89);
        } else {
        }
    }
}

/// `"REL"`: the relative-axis-bitmap category.
pub open spec fn c_rel() -> Seq<u8> {
    seq![82u8, 69u8, 76u8]
}

/// The bytes of `c_rel`, for executable code.
pub fn c_rel_v() -> (r: Vec<u8>)
    ensures
        r@ == c_rel(),
{
    let mut r: Vec<u8> = Vec::new();
    r.push(82);
    r.push(69);
    r.push(76);
    proof {
        assert(r@ =~= c_rel());
    }
    r
}

/// Which separator bytes `c_rel` is free of.
pub proof fn c_rel_free()
    ensures
        sep_free(c_rel(), NL),
        sep_free(c_rel(), SP),
        sep_free(c_rel(), EQ),
{
    assert forall|i: int| 0 <= i < c_rel().len() implies c_rel()[i] != 10 && c_rel()[i] != 32 && c_rel()[i] != 61 by {
        if i == 0 {
            assert(c_rel()[0] == 82);
        } else if i == 1 {
            assert(c_rel()[1] == 69);
        } else if i == 2 {
            assert(c_rel()[2] == 76);
        } else {
        }
    }
}

/// `"ABS"`: the absolute-axis-bitmap category.
pub open spec fn c_abs() -> Seq<u8> {
    seq![65u8, 66u8, 83u8]
}

/// The bytes of `c_abs`, for executable code.
pub fn c_abs_v() -> (r: Vec<u8>)
    ensures
        r@ == c_abs(),
{
    let mut r: Vec<u8> = Vec::new();
    r.push(65);
    r.push(66);
    r.push(83);
    proof {
        assert(r@ =~= c_abs());
    }
    r
}

/// Which separator bytes `c_abs` is free of.
pub proof fn c_abs_free()
    ensures
        sep_free(c_abs(), NL),
        sep_free(c_abs(), SP),
        sep_free(c_abs(), EQ),
{
    assert forall|i: int| 0 <= i < c_abs().len() implies c_abs()[i] != 10 && c_abs()[i] != 32 && c_abs()[i] != 61 by {
        if i == 0 {
            assert(c_abs()[0] == 65);
        } else if i == 1 {
            assert(c_abs()[1] == 66);
        } else if i == 2 {
            assert(c_abs()[2] == 83);
        } else {
        }
    }
}

/// `"MSC"`: the miscellaneous-bitmap category.
pub open spec fn c_msc() -> Seq<u8> {
    seq![77u8, 83u8, 67u8]
}

/// The bytes of `c_msc`, for executable code.
pub fn c_msc_v() -> (r: Vec<u8>)
    ensures
        r@ == c_msc(),
{
    let mut r: Vec<u8> = Vec::new();
    r.push(77);
    r.push(83);
    r.push(67);
    proof {
        assert(r@ =~= c_msc());
    }
    r
}

/// Which separator bytes `c_msc` is free of.
pub proof fn c_msc_free()
    ensures
        sep_free(c_msc(), NL),
        sep_free(c_msc(), SP),
        sep_free(c_msc(), EQ),
{
    assert forall|i: int| 0 <= i < c_msc().len() implies c_msc()[i] != 10 && c_msc()[i] != 32 && c_msc()[i] != 61 by {
        if i == 0 {
            assert(c_msc()[0] == 77);
        } else if i == 1 {
            assert(c_msc()[1] == 83);
        } else if i == 2 {
            assert(c_msc()[2] == 67);
        } else {
        }
    }
}

/// `"LED"`: the led-bitmap category.
pub open spec fn c_led() -> Seq<u8> {
    seq![76u8, 69u8, 68u8]
}

/// The bytes of `c_led`, for executable code.
pub fn c_led_v() -> (r: Vec<u8>)
    ensures
        r@ == c_led(),
{
    let mut r: Vec<u8> = Vec::new();
    r.push(76);
    r.push(69);
    r.push(68);
    proof {
        assert(r@ =~= c_led());
    }
    r
}

/// Which separator bytes `c_led` is free of.
pub proof fn c_led_free()
    ensures
        sep_free(c_led(), NL),
        sep_free(c_led(), SP),
        sep_free(c_led(), EQ),
{
    assert forall|i: int| 0 <= i < c_led().len() implies c_led()[i] != 10 && c_led()[i] != 32 && c_led()[i] != 61 by {
        if i == 0 {
            assert(c_led()[0] == 76);
        } else if i == 1 {
            assert(c_led()[1] == 69);
        } else if i == 2 {
            assert(c_led()[2] == 68);
        } else {
        }
    }
}

/// `"SND"`: the sound-bitmap category.
pub open spec fn c_snd() -> Seq<u8> {
    seq![83u8, 78u8, 68u8]
}

/// The bytes of `c_snd`, for executable code.
pub fn c_snd_v() -> (r: Vec<u8>)
    ensures
        r@ == c_snd(),
{
    let mut r: Vec<u8> = Vec::new();
    r.push(83);
    r.push(78);
    r.push(68);
    proof {
        assert(r@ =~= c_snd());
    }
    r
}

/// Which separator bytes `c_snd` is free of.
pub proof fn c_snd_free()
    ensures
        sep_free(c_snd(), NL),
        sep_free(c_snd(), SP),
        sep_free(c_snd(), EQ),
{
    assert forall|i: int| 0 <= i < c_snd().len() implies c_snd()[i] != 10 && c_snd()[i] != 32 && c_snd()[i] != 61 by {
        if i == 0 {
            assert(c_snd()[0] == 83);
        } else if i == 1 {
            assert(c_snd()[1] == 78);
        } else if i == 2 {
            assert(c_snd()[2] == 68);
        } else {
        }
    }
}

/// `"FF"`: the force-feedback-bitmap category.
pub open spec fn c_ff() -> Seq<u8> {
    seq![70u8, 70u8]
}

/// The bytes of `c_ff`, for executable code.
pub fn c_ff_v() -> (r: Vec<u8>)
    ensures
        r@ == c_ff(),
{
    let mut r: Vec<u8> = Vec::new();
    r.push(70);
    r.push(70);
    proof {
        assert(r@ =~= c_ff());
    }
    r
}

/// Which separator bytes `c_ff` is free of.
pub proof fn c_ff_free()
    ensures
        sep_free(c_ff(), NL),
        sep_free(c_ff(), SP),
        sep_free(c_ff(), EQ),
{
    assert forall|i: int| 0 <= i < c_ff().len() implies c_ff()[i] != 10 && c_ff()[i] != 32 && c_ff()[i] != 61 by {
        if i == 0 {
            assert(c_ff()[0] == 70);
        } else if i == 1 {
            assert(c_ff()[1] == 70);
        } else {
        }
    }
}

/// `"SW"`: the switch-bitmap category.
pub open spec fn c_sw() -> Seq<u8> {
    seq![83u8, 87u8]
}

/// The bytes of `c_sw`, for executable code.
pub fn c_sw_v() -> (r: Vec<u8>)
    ensures
        r@ == c_sw(),
{
    let mut r: Vec<u8> = Vec::new();
    r.push(83);
    r.push(87);
    proof {
        assert(r@ =~= c_sw());
    }
    r
}

/// Which separator bytes `c_sw` is free of.
pub proof fn c_sw_free()
    ensures
        sep_free(c_sw(), NL),
        sep_free(c_sw(), SP),
        sep_free(c_sw(), EQ),
{
    assert forall|i: int| 0 <= i < c_sw().len() implies c_sw()[i] != 10 && c_sw()[i] != 32 && c_sw()[i] != 61 by {
        if i == 0 {
            assert(c_sw()[0] == 83);
        } else if i == 1 {
            assert(c_sw()[1] == 87);
        } else {
        }
    }
}

/// `"event"`: the handler token that names a readable event node.
pub open spec fn t_event() -> Seq<u8> {
    seq![101u8, 118u8, 101u8, 110u8, 116u8]
}

/// The bytes of `t_event`, for executable code.
pub fn t_event_v() -> (r: Vec<u8>)
    ensures
        r@ == t_event(),
{
    let mut r: Vec<u8> = Vec::new();
    r.push(101);
    r.push(118);
    r.push(101);
    r.push(110);
    r.push(116);
    proof {
        assert(r@ =~= t_event());
    }
    r
}


/// `"logs/"`: the directory prefix of log files.
pub open spec fn t_logs() -> Seq<u8> {
    seq![108u8, 111u8, 103u8, 115u8, 47u8]
}

/// The bytes of `t_logs`, for executable code.
pub fn t_logs_v() -> (r: Vec<u8>)
    ensures
        r@ == t_logs(),
{
    let mut r: Vec<u8> = Vec::new();
    r.push(108);
    r.push(111);
    r.push(103);
    r.push(115);
    r.push(47);
    proof {
        assert(r@ =~= t_logs());
    }
    r
}


/// `"["`: the opening of a rendered line's timestamp.
pub open spec fn r_open() -> Seq<u8> {
    seq![91u8]
}

/// The bytes of `r_open`, for executable code.
pub fn r_open_v() -> (r: Vec<u8>)
    ensures
        r@ == r_open(),
{
    let mut r: Vec<u8> = Vec::new();
    r.push(91);
    proof {
        assert(r@ =~= r_open());
    }
    r
}

/// `"] {"`: between the timestamp and the record.
pub open spec fn r_mid() -> Seq<u8> {
    seq![93u8, 32u8, 123u8]
}

/// The bytes of `r_mid`, for executable code.
pub fn r_mid_v() -> (r: Vec<u8>)
    ensures
        r@ == r_mid(),
{
    let mut r: Vec<u8> = Vec::new();
    r.push(93);
    r.push(32);
    r.push(123);
    proof {
        assert(r@ =~= r_mid());
    }
    r
}

/// `"}\r\n"`: the end of a rendered line.
pub open spec fn r_close() -> Seq<u8> {
    seq![125u8, 13u8, 10u8]
}

/// The bytes of `r_close`, for executable code.
pub fn r_close_v() -> (r: Vec<u8>)
    ensures
        r@ == r_close(),
{
    let mut r: Vec<u8> = Vec::new();
    r.push(125);
    r.push(13);
    r.push(10);
    proof {
        assert(r@ =~= r_close());
    }
    r
}

/// `"]"`: the end of a rendered byte array.
pub open spec fn r_rbrk() -> Seq<u8> {
    seq![93u8]
}

/// The bytes of `r_rbrk`, for executable code.
pub fn r_rbrk_v() -> (r: Vec<u8>)
    ensures
        r@ == r_rbrk(),
{
    let mut r: Vec<u8> = Vec::new();
    r.push(93);
    proof {
        assert(r@ =~= r_rbrk());
    }
    r
}

/// `", "`: between rendered bytes and fields.
pub open spec fn r_comma() -> Seq<u8> {
    seq![44u8, 32u8]
}

/// The bytes of `r_comma`, for executable code.
pub fn r_comma_v() -> (r: Vec<u8>)
    ensures
        r@ == r_comma(),
{
    let mut r: Vec<u8> = Vec::new();
    r.push(44);
    r.push(32);
    proof {
        assert(r@ =~= r_comma());
    }
    r
}

/// `"input_event { time: timeval { tv_sec: "`: the head of a decoded record.
pub open spec fn r_ev_head() -> Seq<u8> {
    seq![105u8, 110u8, 112u8, 117u8, 116u8, 95u8, 101u8, 118u8, 101u8, 110u8, 116u8, 32u8, 123u8, 32u8, 116u8, 105u8, 109u8, 101u8, 58u8, 32u8, 116u8, 105u8, 109u8, 101u8, 118u8, 97u8, 108u8, 32u8, 123u8, 32u8, 116u8, 118u8, 95u8, 115u8, 101u8, 99u8, 58u8, 32u8]
}

/// The bytes of `r_ev_head`, for executable code.
pub fn r_ev_head_v() -> (r: Vec<u8>)
    ensures
        r@ == r_ev_head(),
{
    let mut r: Vec<u8> = Vec::new();
    r.push(105);
    r.push(110);
    r.push(112);
    r.push(117);
    r.push(116);
    r.push(95);
    r.push(101);
    r.push(118);
    r.push(101);
    r.push(110);
    r.push(116);
    r.push(32);
    r.push(123);
    r.push(32);
    r.push(116);
    r.push(105);
    r.push(109);
    r.push(101);
    r.push(58);
    r.push(32);
    r.push(116);
    r.push(105);
    r.push(109);
    r.push(101);
    r.push(118);
    r.push(97);
    r.push(108);
    r.push(32);
    r.push(123);
    r.push(32);
    r.push(116);
    r.push(118);
    r.push(95);
    r.push(115);
    r.push(101);
    r.push(99);
    r.push(58);
    r.push(32);
    proof {
        assert(r@ =~= r_ev_head());
    }
    r
}

/// `", tv_usec: "`: before the microseconds field.
pub open spec fn r_usec() -> Seq<u8> {
    seq![44u8, 32u8, 116u8, 118u8, 95u8, 117u8, 115u8, 101u8, 99u8, 58u8, 32u8]
}

/// The bytes of `r_usec`, for executable code.
pub fn r_usec_v() -> (r: Vec<u8>)
    ensures
        r@ == r_usec(),
{
    let mut r: Vec<u8> = Vec::new();
    r.push(44);
    r.push(32);
    r.push(116);
    r.push(118);
    r.push(95);
    r.push(117);
    r.push(115);
    r.push(101);
    r.push(99);
    r.push(58);
    r.push(32);
    proof {
        assert(r@ =~= r_usec());
    }
    r
}

/// `" }, type: "`: before the type name.
pub open spec fn r_type() -> Seq<u8> {
    seq![32u8, 125u8, 44u8, 32u8, 116u8, 121u8, 112u8, 101u8, 58u8, 32u8]
}

/// The bytes of `r_type`, for executable code.
pub fn r_type_v() -> (r: Vec<u8>)
    ensures
        r@ == r_type(),
{
    let mut r: Vec<u8> = Vec::new();
    r.push(32);
    r.push(125);
    r.push(44);
    r.push(32);
    r.push(116);
    r.push(121);
    r.push(112);
    r.push(101);
    r.push(58);
    r.push(32);
    proof {
        assert(r@ =~= r_type());
    }
    r
}

/// `", code: "`: before the code name.
pub open spec fn r_code() -> Seq<u8> {
    seq![44u8, 32u8, 99u8, 111u8, 100u8, 101u8, 58u8, 32u8]
}

/// The bytes of `r_code`, for executable code.
pub fn r_code_v() -> (r: Vec<u8>)
    ensures
        r@ == r_code(),
{
    let mut r: Vec<u8> = Vec::new();
    r.push(44);
    r.push(32);
    r.push(99);
    r.push(111);
    r.push(100);
    r.push(101);
    r.push(58);
    r.push(32);
    proof {
        assert(r@ =~= r_code());
    }
    r
}

/// `", value: "`: before the value field.
pub open spec fn r_value() -> Seq<u8> {
    seq![44u8, 32u8, 118u8, 97u8, 108u8, 117u8, 101u8, 58u8, 32u8]
}

/// The bytes of `r_value`, for executable code.
pub fn r_value_v() -> (r: Vec<u8>)
    ensures
        r@ == r_value(),
{
    let mut r: Vec<u8> = Vec::new();
    r.push(44);
    r.push(32);
    r.push(118);
    r.push(97);
    r.push(108);
    r.push(117);
    r.push(101);
    r.push(58);
    r.push(32);
    proof {
        assert(r@ =~= r_value());
    }
    r
}

/// `" }"`: the end of a decoded record.
pub open spec fn r_tail() -> Seq<u8> {
    seq![32u8, 125u8]
}

/// The bytes of `r_tail`, for executable code.
pub fn r_tail_v() -> (r: Vec<u8>)
    ensures
        r@ == r_tail(),
{
    let mut r: Vec<u8> = Vec::new();
    r.push(32);
    r.push(125);
    proof {
        assert(r@ =~= r_tail());
    }
    r
}

} // verus!
