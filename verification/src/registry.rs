//! The device registry: typed records for the kernel's textual listing of
//! input devices, a parser from the listing to records, a serializer back to
//! text, and the name-pattern matcher.
//!
//! The listing is a sequence of device blocks separated by a blank line.  A
//! block is six tag lines in fixed order — identifier, name, physical path,
//! sysfs path, unique id, handlers — followed by any number of bitmap lines.
//! Any missing line, wrong tag or malformed payload is a fatal error: a
//! malformed listing means an incompatible system interface, so there is no
//! partial recovery.

use vstd::prelude::*;
use vstd::slice::slice_subrange;
use vstd::slice::slice_to_vec;

use crate::bytes::EQ;
use crate::bytes::NL;
use crate::bytes::QU;
use crate::bytes::SP;
use crate::bytes::bytes_eq;
use crate::bytes::contains_bytes;
use crate::bytes::contains_sub;
use crate::bytes::find_byte;
use crate::bytes::find_first;
use crate::bytes::join_blank;
use crate::bytes::join_bytes;
use crate::bytes::join_on;
use crate::bytes::push_all;
use crate::bytes::sep_free;
use crate::bytes::split_blank;
use crate::bytes::split_blank_bytes;
use crate::bytes::split_bytes;
use crate::bytes::split_on;
use crate::bytes::starts_with;
use crate::numbers::spec_parse_dec_u8;
use crate::numbers::spec_parse_hex16;
use crate::numbers::spec_parse_hex64;
use crate::numbers::parse_dec_u8;
use crate::numbers::parse_hex_u16;
use crate::numbers::parse_hex_u64;
use crate::text::t_i;
use crate::text::t_i_v;
use crate::text::t_bus;
use crate::text::t_bus_v;
use crate::text::t_vendor;
use crate::text::t_vendor_v;
use crate::text::t_product;
use crate::text::t_product_v;
use crate::text::t_version;
use crate::text::t_version_v;
use crate::text::t_n;
use crate::text::t_n_v;
use crate::text::t_p;
use crate::text::t_p_v;
use crate::text::t_s;
use crate::text::t_s_v;
use crate::text::t_u;
use crate::text::t_u_v;
use crate::text::t_h;
use crate::text::t_h_v;
use crate::text::t_b;
use crate::text::t_b_v;
use crate::text::c_prop;
use crate::text::c_prop_v;
use crate::text::c_ev;
use crate::text::c_ev_v;
use crate::text::c_key;
use crate::text::c_key_v;
use crate::text::c_rel;
use crate::text::c_rel_v;
use crate::text::c_abs;
use crate::text::c_abs_v;
use crate::text::c_msc;
use crate::text::c_msc_v;
use crate::text::c_led;
use crate::text::c_led_v;
use crate::text::c_snd;
use crate::text::c_snd_v;
use crate::text::c_ff;
use crate::text::c_ff_v;
use crate::text::c_sw;
use crate::text::c_sw_v;

verus! {

/// A structural violation of the registry text.  The whole scan aborts on
/// it: no partial inventory is usable.
#[derive(Clone, Copy, Debug, PartialEq, Eq, Structural)]
pub enum RegistryError {
    /// A block has fewer than the six mandatory lines.
    MissingLine,
    /// A line does not begin with the tag its position demands.
    BadPrefix,
    /// A tag line's payload is malformed (token structure or number).
    BadPayload,
}

/// The identifier quadruple of the registry's `I:` line.
#[derive(Clone, Copy, Debug, PartialEq, Eq, Structural)]
pub struct DeviceId {
    pub bus_type: u16,
    pub vendor: u16,
    pub product: u16,
    pub version: u16,
}

/// The capability bitmaps of a device's `B:` lines.  Every category is
/// optional; the key bitmap commonly exceeds 64 bits and is kept as text.
#[derive(Debug)]
pub struct DeviceBitMaps {
    pub prop: Option<u64>,
    pub ev: Option<u64>,
    pub key: Option<Vec<u8>>,
    pub rel: Option<u64>,
    pub abs: Option<u64>,
    pub msc: Option<u64>,
    pub led: Option<u64>,
    pub snd: Option<u64>,
    pub ff: Option<u64>,
    pub sw: Option<u64>,
}

/// One entry of the registry.
#[derive(Debug)]
pub struct InputDevice {
    /// Bus type, vendor, product and version, from the `I:` line.
    pub i: DeviceId,
    /// The display name, from the `N:` line, without its quotes.
    pub n: Vec<u8>,
    /// The physical path, from the `P:` line, carried unmodified.
    pub p: Vec<u8>,
    /// The sysfs path, from the `S:` line, carried unmodified.
    pub s: Vec<u8>,
    /// The optional small unique id of the `U:` line.
    pub u: Option<u8>,
    /// The handler tokens of the `H:` line, first occurrence first, without
    /// duplicates or empty tokens.
    pub h: Vec<Vec<u8>>,
    /// The capability bitmaps of the `B:` lines.
    pub b: DeviceBitMaps,
}

/// The mathematical value of `DeviceBitMaps`.
#[verifier::ext_equal]
pub struct BitMapsModel {
    pub prop: Option<u64>,
    pub ev: Option<u64>,
    pub key: Option<Seq<u8>>,
    pub rel: Option<u64>,
    pub abs: Option<u64>,
    pub msc: Option<u64>,
    pub led: Option<u64>,
    pub snd: Option<u64>,
    pub ff: Option<u64>,
    pub sw: Option<u64>,
}

/// The mathematical value of `InputDevice`.
#[verifier::ext_equal]
pub struct DeviceModel {
    pub i: DeviceId,
    pub n: Seq<u8>,
    pub p: Seq<u8>,
    pub s: Seq<u8>,
    pub u: Option<u8>,
    pub h: Seq<Seq<u8>>,
    pub b: BitMapsModel,
}

impl View for DeviceBitMaps {
    type V = BitMapsModel;

    open spec fn view(&self) -> BitMapsModel {
        BitMapsModel {
            prop: self.prop,
            ev: self.ev,
            key: self.key.deep_view(),
            rel: self.rel,
            abs: self.abs,
            msc: self.msc,
            led: self.led,
            snd: self.snd,
            ff: self.ff,
            sw: self.sw,
        }
    }
}

impl View for InputDevice {
    type V = DeviceModel;

    open spec fn view(&self) -> DeviceModel {
        DeviceModel {
            i: self.i,
            n: self.n@,
            p: self.p@,
            s: self.s@,
            u: self.u,
            h: self.h.deep_view(),
            b: self.b@,
        }
    }
}

impl DeepView for InputDevice {
    type V = DeviceModel;

    open spec fn deep_view(&self) -> DeviceModel {
        self.view()
    }
}

/// No category present: the state before any `B:` line is read.
pub open spec fn empty_bits() -> BitMapsModel {
    BitMapsModel {
        prop: None,
        ev: None,
        key: None,
        rel: None,
        abs: None,
        msc: None,
        led: None,
        snd: None,
        ff: None,
        sw: None,
    }
}

/// The payload after `pre`, when `line` starts with it.
pub open spec fn strip_prefix(line: Seq<u8>, pre: Seq<u8>) -> Option<Seq<u8>> {
    if pre.is_prefix_of(line) {
        Some(line.skip(pre.len() as int))
    } else {
        None
    }
}

/// One `key=hexvalue` token of the identifier line.
pub open spec fn spec_parse_id_token(tok: Seq<u8>, pre: Seq<u8>) -> Option<u16> {
    match strip_prefix(tok, pre) {
        None => None,
        Some(v) => spec_parse_hex16(v),
    }
}

/// The `I:` line: four fixed keys in order, each a base-16 value.
pub open spec fn spec_parse_i_line(line: Seq<u8>) -> Result<DeviceId, RegistryError> {
    match strip_prefix(line, t_i()) {
        None => Err(RegistryError::BadPrefix),
        Some(payload) => {
            let toks = split_on(payload, SP);
            if toks.len() != 4 {
                Err(RegistryError::BadPayload)
            } else {
                match (
                    spec_parse_id_token(toks[0], t_bus()),
                    spec_parse_id_token(toks[1], t_vendor()),
                    spec_parse_id_token(toks[2], t_product()),
                    spec_parse_id_token(toks[3], t_version()),
                ) {
                    (Some(b), Some(ve), Some(pr), Some(vr)) => Ok(
                        DeviceId { bus_type: b, vendor: ve, product: pr, version: vr },
                    ),
                    _ => Err(RegistryError::BadPayload),
                }
            }
        },
    }
}

/// The `N:` line: the name stands between two delimiter characters, which
/// are stripped; a payload too short to hold them is malformed.
pub open spec fn spec_parse_n_line(line: Seq<u8>) -> Result<Seq<u8>, RegistryError> {
    match strip_prefix(line, t_n()) {
        None => Err(RegistryError::BadPrefix),
        Some(pl) => if pl.len() >= 2 {
            Ok(pl.subrange(1, pl.len() - 1))
        } else {
            Err(RegistryError::BadPayload)
        },
    }
}

/// The `P:` line: the physical path, kept as it stands.
pub open spec fn spec_parse_p_line(line: Seq<u8>) -> Result<Seq<u8>, RegistryError> {
    match strip_prefix(line, t_p()) {
        None => Err(RegistryError::BadPrefix),
        Some(pl) => Ok(pl),
    }
}

/// The `S:` line: the sysfs path, kept as it stands.
pub open spec fn spec_parse_s_line(line: Seq<u8>) -> Result<Seq<u8>, RegistryError> {
    match strip_prefix(line, t_s()) {
        None => Err(RegistryError::BadPrefix),
        Some(pl) => Ok(pl),
    }
}

/// The `U:` line: a small decimal id, or nothing when the payload does not
/// read as one — absence is not an error.
pub open spec fn spec_parse_u_line(line: Seq<u8>) -> Result<Option<u8>, RegistryError> {
    match strip_prefix(line, t_u()) {
        None => Err(RegistryError::BadPrefix),
        Some(pl) => Ok(spec_parse_dec_u8(pl)),
    }
}

/// Drops empty tokens, keeping order.
pub open spec fn keep_nonempty(ts: Seq<Seq<u8>>) -> Seq<Seq<u8>>
    decreases ts.len(),
{
    if ts.len() == 0 {
        Seq::<Seq<u8>>::empty()
    } else {
        let rest = keep_nonempty(ts.drop_last());
        if ts.last().len() > 0 {
            rest.push(ts.last())
        } else {
            rest
        }
    }
}

/// Drops repeated tokens, keeping each first occurrence in place.
pub open spec fn first_occurrences(ts: Seq<Seq<u8>>) -> Seq<Seq<u8>>
    decreases ts.len(),
{
    if ts.len() == 0 {
        Seq::<Seq<u8>>::empty()
    } else {
        let rest = first_occurrences(ts.drop_last());
        if rest.contains(ts.last()) {
            rest
        } else {
            rest.push(ts.last())
        }
    }
}

/// The `H:` line: space-separated handler tokens collapsed into a
/// duplicate-free sequence, empty tokens discarded.
pub open spec fn spec_parse_h_line(line: Seq<u8>) -> Result<Seq<Seq<u8>>, RegistryError> {
    match strip_prefix(line, t_h()) {
        None => Err(RegistryError::BadPrefix),
        Some(pl) => Ok(first_occurrences(keep_nonempty(split_on(pl, SP)))),
    }
}

/// One `B:` line folded into the bitmaps read so far.  The key category
/// keeps its payload as text; every other category must read as a base-16
/// mask; an unknown category is dropped.
pub open spec fn spec_apply_b_line(acc: BitMapsModel, line: Seq<u8>) -> Result<
    BitMapsModel,
    RegistryError,
> {
    match strip_prefix(line, t_b()) {
        None => Err(RegistryError::BadPrefix),
        Some(pl) => {
            let e = find_first(pl, EQ);
            if e < 0 {
                if pl == c_key() {
                    Ok(BitMapsModel { key: None, ..acc })
                } else {
                    Err(RegistryError::BadPayload)
                }
            } else {
                let cat = pl.take(e);
                let value = pl.skip(e + 1);
                if cat == c_key() {
                    Ok(BitMapsModel { key: Some(value), ..acc })
                } else {
                    match spec_parse_hex64(value) {
                        None => Err(RegistryError::BadPayload),
                        Some(v) => if cat == c_prop() {
                            Ok(BitMapsModel { prop: Some(v), ..acc })
                        } else if cat == c_ev() {
                            Ok(BitMapsModel { ev: Some(v), ..acc })
                        } else if cat == c_rel() {
                            Ok(BitMapsModel { rel: Some(v), ..acc })
                        } else if cat == c_abs() {
                            Ok(BitMapsModel { abs: Some(v), ..acc })
                        } else if cat == c_msc() {
                            Ok(BitMapsModel { msc: Some(v), ..acc })
                        } else if cat == c_led() {
                            Ok(BitMapsModel { led: Some(v), ..acc })
                        } else if cat == c_snd() {
                            Ok(BitMapsModel { snd: Some(v), ..acc })
                        } else if cat == c_ff() {
                            Ok(BitMapsModel { ff: Some(v), ..acc })
                        } else if cat == c_sw() {
                            Ok(BitMapsModel { sw: Some(v), ..acc })
                        } else {
                            Ok(acc)
                        },
                    }
                }
            }
        },
    }
}

/// The `B:` lines from index `i` on, folded in order; a later line for the
/// same category wins.
pub open spec fn spec_apply_b_lines(lines: Seq<Seq<u8>>, i: int, acc: BitMapsModel) -> Result<
    BitMapsModel,
    RegistryError,
>
    decreases lines.len() - i,
{
    if i < 0 || i >= lines.len() {
        Ok(acc)
    } else {
        match spec_apply_b_line(acc, lines[i]) {
            Err(e) => Err(e),
            Ok(a2) => spec_apply_b_lines(lines, i + 1, a2),
        }
    }
}

/// One block's lines: the six mandatory tag lines in fixed order, then the
/// bitmap lines.
pub open spec fn spec_parse_device_lines(lines: Seq<Seq<u8>>) -> Result<
    DeviceModel,
    RegistryError,
> {
    if lines.len() < 6 {
        Err(RegistryError::MissingLine)
    } else {
        match spec_parse_i_line(lines[0]) {
            Err(e) => Err(e),
            Ok(id) => match spec_parse_n_line(lines[1]) {
                Err(e) => Err(e),
                Ok(n) => match spec_parse_p_line(lines[2]) {
                    Err(e) => Err(e),
                    Ok(p) => match spec_parse_s_line(lines[3]) {
                        Err(e) => Err(e),
                        Ok(s) => match spec_parse_u_line(lines[4]) {
                            Err(e) => Err(e),
                            Ok(u) => match spec_parse_h_line(lines[5]) {
                                Err(e) => Err(e),
                                Ok(h) => match spec_apply_b_lines(lines, 6, empty_bits()) {
                                    Err(e) => Err(e),
                                    Ok(b) => Ok(DeviceModel { i: id, n, p, s, u, h, b }),
                                },
                            },
                        },
                    },
                },
            },
        }
    }
}

/// One block of the registry text, split into its lines.
pub open spec fn spec_parse_device(block: Seq<u8>) -> Result<DeviceModel, RegistryError> {
    spec_parse_device_lines(split_on(block, NL))
}

/// The blocks from index `i` on: empty blocks are skipped, the rest parse
/// in order; the first violation aborts.
pub open spec fn spec_parse_registry_blocks(blocks: Seq<Seq<u8>>, i: int) -> Result<
    Seq<DeviceModel>,
    RegistryError,
>
    decreases blocks.len() - i,
{
    if i < 0 || i >= blocks.len() {
        Ok(Seq::<DeviceModel>::empty())
    } else if blocks[i].len() == 0 {
        spec_parse_registry_blocks(blocks, i + 1)
    } else {
        match spec_parse_device(blocks[i]) {
            Err(e) => Err(e),
            Ok(d) => match spec_parse_registry_blocks(blocks, i + 1) {
                Err(e) => Err(e),
                Ok(rest) => Ok(seq![d] + rest),
            },
        }
    }
}

/// The whole registry text: blank-line-separated blocks, each a device.
pub open spec fn spec_parse_registry(text: Seq<u8>) -> Result<Seq<DeviceModel>, RegistryError> {
    spec_parse_registry_blocks(split_blank(text), 0)
}

/// Parses one `key=hexvalue` token of the identifier line.
fn parse_id_token(tok: &[u8], pre: &[u8]) -> (r: Option<u16>)
    ensures
        r == spec_parse_id_token(tok@, pre@),
{
    if !starts_with(tok, pre) {
        return None;
    }
    let rest = slice_subrange(tok, pre.len(), tok.len());
    proof {
        assert(rest@ =~= tok@.skip(pre@.len() as int));
    }
    parse_hex_u16(rest)
}

/// Parses the identifier line.
fn parse_i_line(line: &[u8]) -> (r: Result<DeviceId, RegistryError>)
    ensures
        r == spec_parse_i_line(line@),
{
    let tag = t_i_v();
    if !starts_with(line, tag.as_slice()) {
        return Err(RegistryError::BadPrefix);
    }
    let payload = slice_subrange(line, tag.len(), line.len());
    proof {
        assert(payload@ =~= line@.skip(t_i().len() as int));
    }
    let toks = split_bytes(payload, SP);
    if toks.len() != 4 {
        return Err(RegistryError::BadPayload);
    }
    proof {
        assert(toks@[0]@ =~= toks.deep_view()[0]);
        assert(toks@[1]@ =~= toks.deep_view()[1]);
        assert(toks@[2]@ =~= toks.deep_view()[2]);
        assert(toks@[3]@ =~= toks.deep_view()[3]);
    }
    let b = parse_id_token(toks[0].as_slice(), t_bus_v().as_slice());
    let ve = parse_id_token(toks[1].as_slice(), t_vendor_v().as_slice());
    let pr = parse_id_token(toks[2].as_slice(), t_product_v().as_slice());
    let vr = parse_id_token(toks[3].as_slice(), t_version_v().as_slice());
    match (b, ve, pr, vr) {
        (Some(b), Some(ve), Some(pr), Some(vr)) => Ok(
            DeviceId { bus_type: b, vendor: ve, product: pr, version: vr },
        ),
        _ => Err(RegistryError::BadPayload),
    }
}

/// Parses the name line.
fn parse_n_line(line: &[u8]) -> (r: Result<Vec<u8>, RegistryError>)
    ensures
        match r {
            Ok(n) => spec_parse_n_line(line@) == Ok::<Seq<u8>, RegistryError>(n@),
            Err(e) => spec_parse_n_line(line@) == Err::<Seq<u8>, RegistryError>(e),
        },
{
    let tag = t_n_v();
    if !starts_with(line, tag.as_slice()) {
        return Err(RegistryError::BadPrefix);
    }
    proof {
        assert(line@.skip(t_n().len() as int) =~= line@.subrange(8, line@.len() as int));
    }
    if line.len() < tag.len() + 2 {
        return Err(RegistryError::BadPayload);
    }
    let name = slice_subrange(line, tag.len() + 1, line.len() - 1);
    proof {
        assert(name@ =~= line@.skip(t_n().len() as int).subrange(
            1,
            line@.skip(t_n().len() as int).len() - 1,
        ));
    }
    Ok(slice_to_vec(name))
}

/// Parses the physical-path line.
fn parse_p_line(line: &[u8]) -> (r: Result<Vec<u8>, RegistryError>)
    ensures
        match r {
            Ok(p) => spec_parse_p_line(line@) == Ok::<Seq<u8>, RegistryError>(p@),
            Err(e) => spec_parse_p_line(line@) == Err::<Seq<u8>, RegistryError>(e),
        },
{
    let tag = t_p_v();
    if !starts_with(line, tag.as_slice()) {
        return Err(RegistryError::BadPrefix);
    }
    let payload = slice_subrange(line, tag.len(), line.len());
    proof {
        assert(payload@ =~= line@.skip(t_p().len() as int));
    }
    Ok(slice_to_vec(payload))
}

/// Parses the sysfs-path line.
fn parse_s_line(line: &[u8]) -> (r: Result<Vec<u8>, RegistryError>)
    ensures
        match r {
            Ok(s) => spec_parse_s_line(line@) == Ok::<Seq<u8>, RegistryError>(s@),
            Err(e) => spec_parse_s_line(line@) == Err::<Seq<u8>, RegistryError>(e),
        },
{
    let tag = t_s_v();
    if !starts_with(line, tag.as_slice()) {
        return Err(RegistryError::BadPrefix);
    }
    let payload = slice_subrange(line, tag.len(), line.len());
    proof {
        assert(payload@ =~= line@.skip(t_s().len() as int));
    }
    Ok(slice_to_vec(payload))
}

/// Parses the unique-id line.
fn parse_u_line(line: &[u8]) -> (r: Result<Option<u8>, RegistryError>)
    ensures
        r == spec_parse_u_line(line@),
{
    let tag = t_u_v();
    if !starts_with(line, tag.as_slice()) {
        return Err(RegistryError::BadPrefix);
    }
    let payload = slice_subrange(line, tag.len(), line.len());
    proof {
        assert(payload@ =~= line@.skip(t_u().len() as int));
    }
    Ok(parse_dec_u8(payload))
}

/// Whether some element of `v` holds exactly the bytes `t`.
fn vec_contains(v: &Vec<Vec<u8>>, t: &[u8]) -> (r: bool)
    ensures
        r == v.deep_view().contains(t@),
{
    let n = v.len();
    let mut i: usize = 0;
    while i < n
        invariant
            n == v@.len(),
            0 <= i <= n,
            forall|k: int| 0 <= k < i ==> v.deep_view()[k] != t@,
        decreases n - i,
    {
        proof {
            assert(v.deep_view()[i as int] =~= v@[i as int]@);
        }
        if bytes_eq(v[i].as_slice(), t) {
            assert(v.deep_view().contains(t@));
            return true;
        }
        i += 1;
    }
    assert(!v.deep_view().contains(t@));
    false
}

/// Parses the handlers line.
fn parse_h_line(line: &[u8]) -> (r: Result<Vec<Vec<u8>>, RegistryError>)
    ensures
        match r {
            Ok(h) => spec_parse_h_line(line@) == Ok::<Seq<Seq<u8>>, RegistryError>(h.deep_view()),
            Err(e) => spec_parse_h_line(line@) == Err::<Seq<Seq<u8>>, RegistryError>(e),
        },
{
    let tag = t_h_v();
    if !starts_with(line, tag.as_slice()) {
        return Err(RegistryError::BadPrefix);
    }
    let payload = slice_subrange(line, tag.len(), line.len());
    proof {
        assert(payload@ =~= line@.skip(t_h().len() as int));
    }
    let toks = split_bytes(payload, SP);
    let ghost tdv = toks.deep_view();
    let n = toks.len();
    let mut acc: Vec<Vec<u8>> = Vec::new();
    let mut i: usize = 0;
    proof {
        assert(tdv.take(0) =~= Seq::<Seq<u8>>::empty());
        assert(acc.deep_view() =~~= first_occurrences(keep_nonempty(tdv.take(0))));
    }
    while i < n
        invariant
            n == toks@.len(),
            tdv == toks.deep_view(),
            0 <= i <= n,
            acc.deep_view() == first_occurrences(keep_nonempty(tdv.take(i as int))),
        decreases n - i,
    {
        proof {
            assert(tdv.take(i + 1).drop_last() =~~= tdv.take(i as int));
            assert(tdv.take(i + 1).last() == tdv[i as int]);
            assert(toks@[i as int]@ =~= tdv[i as int]);
        }
        let t = toks[i].as_slice();
        if t.len() > 0 {
            let ghost ke = keep_nonempty(tdv.take(i as int));
            proof {
                assert(keep_nonempty(tdv.take(i + 1)) == ke.push(tdv[i as int]));
                assert(ke.push(tdv[i as int]).drop_last() =~~= ke);
                assert(first_occurrences(keep_nonempty(tdv.take(i + 1))) == (
                if first_occurrences(ke).contains(tdv[i as int]) {
                    first_occurrences(ke)
                } else {
                    first_occurrences(ke).push(tdv[i as int])
                }));
            }
            if !vec_contains(&acc, t) {
                let ghost old_acc = acc.deep_view();
                acc.push(slice_to_vec(t));
                proof {
                    assert(acc.deep_view() =~~= old_acc.push(tdv[i as int]));
                }
            }
        } else {
            proof {
                assert(keep_nonempty(tdv.take(i + 1)) == keep_nonempty(tdv.take(i as int)));
            }
        }
        i += 1;
    }
    proof {
        assert(tdv.take(n as int) =~~= tdv);
    }
    Ok(acc)
}

/// Folds one bitmap line into the bitmaps read so far.
fn apply_b_line(acc: DeviceBitMaps, line: &[u8]) -> (r: Result<DeviceBitMaps, RegistryError>)
    ensures
        match r {
            Ok(a2) => spec_apply_b_line(acc@, line@) == Ok::<BitMapsModel, RegistryError>(a2@),
            Err(e) => spec_apply_b_line(acc@, line@) == Err::<BitMapsModel, RegistryError>(e),
        },
{
    let tag = t_b_v();
    if !starts_with(line, tag.as_slice()) {
        return Err(RegistryError::BadPrefix);
    }
    let payload = slice_subrange(line, tag.len(), line.len());
    proof {
        assert(payload@ =~= line@.skip(t_b().len() as int));
    }
    let mut a = acc;
    match find_byte(payload, EQ) {
        None => {
            if bytes_eq(payload, c_key_v().as_slice()) {
                a.key = None;
                Ok(a)
            } else {
                Err(RegistryError::BadPayload)
            }
        },
        Some(e) => {
            proof {
                crate::bytes::lemma_find_first(payload@, EQ);
            }
            let cat = slice_subrange(payload, 0, e);
            let value = slice_subrange(payload, e + 1, payload.len());
            proof {
                assert(cat@ =~= payload@.take(e as int));
                assert(value@ =~= payload@.skip(e + 1));
            }
            if bytes_eq(cat, c_key_v().as_slice()) {
                a.key = Some(slice_to_vec(value));
                proof {
                    assert(a@ =~= BitMapsModel { key: Some(value@), ..acc@ });
                }
                Ok(a)
            } else {
                match parse_hex_u64(value) {
                    None => Err(RegistryError::BadPayload),
                    Some(v) => {
                        if bytes_eq(cat, c_prop_v().as_slice()) {
                            a.prop = Some(v);
                        } else if bytes_eq(cat, c_ev_v().as_slice()) {
                            a.ev = Some(v);
                        } else if bytes_eq(cat, c_rel_v().as_slice()) {
                            a.rel = Some(v);
                        } else if bytes_eq(cat, c_abs_v().as_slice()) {
                            a.abs = Some(v);
                        } else if bytes_eq(cat, c_msc_v().as_slice()) {
                            a.msc = Some(v);
                        } else if bytes_eq(cat, c_led_v().as_slice()) {
                            a.led = Some(v);
                        } else if bytes_eq(cat, c_snd_v().as_slice()) {
                            a.snd = Some(v);
                        } else if bytes_eq(cat, c_ff_v().as_slice()) {
                            a.ff = Some(v);
                        } else if bytes_eq(cat, c_sw_v().as_slice()) {
                            a.sw = Some(v);
                        }
                        Ok(a)
                    },
                }
            }
        },
    }
}

/// Parses one device block: six tag lines in fixed order, then bitmap
/// lines.
#[verifier::loop_isolation(false)]
pub fn scan_device(block: &[u8]) -> (r: Result<InputDevice, RegistryError>)
    ensures
        match r {
            Ok(d) => spec_parse_device(block@) == Ok::<DeviceModel, RegistryError>(d@),
            Err(e) => spec_parse_device(block@) == Err::<DeviceModel, RegistryError>(e),
        },
{
    let lines = split_bytes(block, NL);
    let ghost ldv = lines.deep_view();
    if lines.len() < 6 {
        return Err(RegistryError::MissingLine);
    }
    proof {
        assert(lines@[0]@ =~= ldv[0]);
        assert(lines@[1]@ =~= ldv[1]);
        assert(lines@[2]@ =~= ldv[2]);
        assert(lines@[3]@ =~= ldv[3]);
        assert(lines@[4]@ =~= ldv[4]);
        assert(lines@[5]@ =~= ldv[5]);
    }
    let id = match parse_i_line(lines[0].as_slice()) {
        Ok(id) => id,
        Err(e) => {
            return Err(e);
        },
    };
    let n = match parse_n_line(lines[1].as_slice()) {
        Ok(n) => n,
        Err(e) => {
            return Err(e);
        },
    };
    let p = match parse_p_line(lines[2].as_slice()) {
        Ok(p) => p,
        Err(e) => {
            return Err(e);
        },
    };
    let s = match parse_s_line(lines[3].as_slice()) {
        Ok(s) => s,
        Err(e) => {
            return Err(e);
        },
    };
    let u = match parse_u_line(lines[4].as_slice()) {
        Ok(u) => u,
        Err(e) => {
            return Err(e);
        },
    };
    let h = match parse_h_line(lines[5].as_slice()) {
        Ok(h) => h,
        Err(e) => {
            return Err(e);
        },
    };
    let mut bits = DeviceBitMaps {
        prop: None,
        ev: None,
        key: None,
        rel: None,
        abs: None,
        msc: None,
        led: None,
        snd: None,
        ff: None,
        sw: None,
    };
    proof {
        assert(bits@ =~= empty_bits());
    }
    let mut i: usize = 6;
    let nl = lines.len();
    while i < nl
        invariant
            nl == lines@.len(),
            ldv == lines.deep_view(),
            6 <= i <= nl,
            spec_apply_b_lines(ldv, 6, empty_bits()) == spec_apply_b_lines(ldv, i as int, bits@),
        decreases nl - i,
    {
        proof {
            assert(lines@[i as int]@ =~= ldv[i as int]);
        }
        bits = match apply_b_line(bits, lines[i].as_slice()) {
            Ok(a2) => a2,
            Err(e) => {
                return Err(e);
            },
        };
        i += 1;
    }
    let d = InputDevice { i: id, n, p, s, u, h, b: bits };
    proof {
        assert(spec_parse_device(block@) == Ok::<DeviceModel, RegistryError>(d@)) by {
            assert(spec_apply_b_lines(ldv, 6, empty_bits()) == Ok::<BitMapsModel, RegistryError>(
                bits@,
            ));
        }
    }
    Ok(d)
}

/// Prepends already-parsed devices to the outcome for the remaining blocks.
pub open spec fn prepend_devices(
    pre: Seq<DeviceModel>,
    r: Result<Seq<DeviceModel>, RegistryError>,
) -> Result<Seq<DeviceModel>, RegistryError> {
    match r {
        Ok(rest) => Ok(pre + rest),
        Err(e) => Err(e),
    }
}

/// Parses the whole registry text into its device records, in order of
/// appearance.  Any structural violation aborts the scan.
pub fn scan_devices(text: &[u8]) -> (r: Result<Vec<InputDevice>, RegistryError>)
    ensures
        match r {
            Ok(ds) => spec_parse_registry(text@) == Ok::<Seq<DeviceModel>, RegistryError>(
                ds.deep_view(),
            ),
            Err(e) => spec_parse_registry(text@) == Err::<Seq<DeviceModel>, RegistryError>(e),
        },
{
    let blocks = split_blank_bytes(text);
    let ghost bdv = blocks.deep_view();
    let n = blocks.len();
    let mut acc: Vec<InputDevice> = Vec::new();
    let mut i: usize = 0;
    proof {
        assert(acc.deep_view() =~~= Seq::<DeviceModel>::empty());
        assert(spec_parse_registry(text@) == prepend_devices(
            acc.deep_view(),
            spec_parse_registry_blocks(bdv, 0),
        )) by {
            match spec_parse_registry_blocks(bdv, 0) {
                Ok(rest) => {
                    assert(Seq::<DeviceModel>::empty() + rest =~= rest);
                },
                Err(e) => {},
            }
        }
    }
    while i < n
        invariant
            n == blocks@.len(),
            bdv == blocks.deep_view(),
            0 <= i <= n,
            spec_parse_registry(text@) == prepend_devices(
                acc.deep_view(),
                spec_parse_registry_blocks(bdv, i as int),
            ),
        decreases n - i,
    {
        proof {
            assert(blocks@[i as int]@ =~= bdv[i as int]);
        }
        let b = blocks[i].as_slice();
        if b.len() > 0 {
            match scan_device(b) {
                Ok(d) => {
                    let ghost old_acc = acc.deep_view();
                    let ghost dm = d@;
                    acc.push(d);
                    proof {
                        assert(acc.deep_view() =~~= old_acc.push(dm));
                        match spec_parse_registry_blocks(bdv, i + 1) {
                            Ok(rest) => {
                                assert(old_acc + (seq![dm] + rest) =~= old_acc.push(dm) + rest);
                            },
                            Err(e) => {},
                        }
                    }
                },
                Err(e) => {
                    return Err(e);
                },
            }
        }
        i += 1;
    }
    Ok(acc)
}

/// The canonical identifier-line tokens of a record.
pub open spec fn ser_id_toks(id: DeviceId) -> Seq<Seq<u8>> {
    seq![
        t_bus() + crate::numbers::ser_hex16(id.bus_type),
        t_vendor() + crate::numbers::ser_hex16(id.vendor),
        t_product() + crate::numbers::ser_hex16(id.product),
        t_version() + crate::numbers::ser_hex16(id.version),
    ]
}

/// The canonical `I:` line of a record.
pub open spec fn ser_i_line(id: DeviceId) -> Seq<u8> {
    t_i() + join_on(ser_id_toks(id), SP)
}

/// The canonical `N:` line: the name between two quotes.
pub open spec fn ser_n_line(n: Seq<u8>) -> Seq<u8> {
    t_n() + (seq![QU] + n + seq![QU])
}

/// The canonical `P:` line.
pub open spec fn ser_p_line(p: Seq<u8>) -> Seq<u8> {
    t_p() + p
}

/// The canonical `S:` line.
pub open spec fn ser_s_line(s: Seq<u8>) -> Seq<u8> {
    t_s() + s
}

/// The canonical `U:` line: the id in decimal, or an empty payload.
pub open spec fn ser_u_line(u: Option<u8>) -> Seq<u8> {
    t_u() + match u {
        None => Seq::<u8>::empty(),
        Some(v) => crate::numbers::ser_dec_u8(v),
    }
}

/// The canonical `H:` line: the handler tokens joined with spaces.
pub open spec fn ser_h_line(h: Seq<Seq<u8>>) -> Seq<u8> {
    t_h() + join_on(h, SP)
}

/// One canonical bitmap line with a base-16 mask.
pub open spec fn ser_b_hex(cat: Seq<u8>, v: u64) -> Seq<u8> {
    t_b() + (cat + seq![EQ] + crate::numbers::ser_hex64(v))
}

/// The canonical key-bitmap line, its payload kept as text.
pub open spec fn ser_b_key(k: Seq<u8>) -> Seq<u8> {
    t_b() + (c_key() + seq![EQ] + k)
}

/// The bitmap line of one category, if present.
pub open spec fn opt_b_hex(cat: Seq<u8>, o: Option<u64>) -> Seq<Seq<u8>> {
    match o {
        None => Seq::<Seq<u8>>::empty(),
        Some(v) => seq![ser_b_hex(cat, v)],
    }
}

/// The key-bitmap line, if present.
pub open spec fn opt_b_key(k: Option<Seq<u8>>) -> Seq<Seq<u8>> {
    match k {
        None => Seq::<Seq<u8>>::empty(),
        Some(ks) => seq![ser_b_key(ks)],
    }
}

/// The canonical bitmap lines of a record, in the order of the categories.
pub open spec fn ser_b_lines(b: BitMapsModel) -> Seq<Seq<u8>> {
    opt_b_hex(c_prop(), b.prop) + opt_b_hex(c_ev(), b.ev) + opt_b_key(b.key) + opt_b_hex(
        c_rel(),
        b.rel,
    ) + opt_b_hex(c_abs(), b.abs) + opt_b_hex(c_msc(), b.msc) + opt_b_hex(c_led(), b.led)
        + opt_b_hex(c_snd(), b.snd) + opt_b_hex(c_ff(), b.ff) + opt_b_hex(c_sw(), b.sw)
}

/// The canonical lines of a whole record.
pub open spec fn ser_device_lines(m: DeviceModel) -> Seq<Seq<u8>> {
    seq![
        ser_i_line(m.i),
        ser_n_line(m.n),
        ser_p_line(m.p),
        ser_s_line(m.s),
        ser_u_line(m.u),
        ser_h_line(m.h),
    ] + ser_b_lines(m.b)
}

/// The canonical text of a whole record.
pub open spec fn ser_device(m: DeviceModel) -> Seq<u8> {
    join_on(ser_device_lines(m), NL)
}

/// The canonical registry text of a record sequence.
pub open spec fn ser_registry(ms: Seq<DeviceModel>) -> Seq<u8> {
    crate::bytes::join_blank(ms.map_values(|m: DeviceModel| ser_device(m)))
}

/// A handler token that the registry grammar can carry: nonempty, with no
/// newline and no space.
pub open spec fn wf_handler(t: Seq<u8>) -> bool {
    t.len() > 0 && sep_free(t, NL) && sep_free(t, SP)
}

/// A record the registry grammar can carry: its free-form fields hold no
/// newline, and its handlers are well-formed and pairwise distinct.
pub open spec fn wf_device(m: DeviceModel) -> bool {
    &&& sep_free(m.n, NL)
    &&& sep_free(m.p, NL)
    &&& sep_free(m.s, NL)
    &&& forall|i: int| 0 <= i < m.h.len() ==> wf_handler(#[trigger] m.h[i])
    &&& forall|i: int, j: int| 0 <= i < j < m.h.len() ==> m.h[i] != m.h[j]
    &&& match m.b.key {
        None => true,
        Some(k) => sep_free(k, NL),
    }
}

/// Writes the canonical `I:` line.
fn build_i_line(id: &DeviceId) -> (r: Vec<u8>)
    ensures
        r@ == ser_i_line(*id),
{
    let mut r = t_i_v();
    let mut toks: Vec<Vec<u8>> = Vec::new();
    let mut tok = t_bus_v();
    let mut hx = crate::numbers::hex_u16_bytes(id.bus_type);
    push_all(&mut tok, hx.as_slice());
    toks.push(tok);
    tok = t_vendor_v();
    hx = crate::numbers::hex_u16_bytes(id.vendor);
    push_all(&mut tok, hx.as_slice());
    toks.push(tok);
    tok = t_product_v();
    hx = crate::numbers::hex_u16_bytes(id.product);
    push_all(&mut tok, hx.as_slice());
    toks.push(tok);
    tok = t_version_v();
    hx = crate::numbers::hex_u16_bytes(id.version);
    push_all(&mut tok, hx.as_slice());
    toks.push(tok);
    proof {
        assert(toks.deep_view() =~~= ser_id_toks(*id));
    }
    let joined = join_bytes(&toks, SP);
    push_all(&mut r, joined.as_slice());
    r
}

/// Writes the canonical `N:` line.
fn build_n_line(n: &Vec<u8>) -> (r: Vec<u8>)
    ensures
        r@ == ser_n_line(n@),
{
    let mut r = t_n_v();
    r.push(QU);
    push_all(&mut r, n.as_slice());
    r.push(QU);
    proof {
        assert(r@ =~= ser_n_line(n@));
    }
    r
}

/// Writes a tag followed by a payload kept as it stands.
fn build_tag_line(tag: Vec<u8>, payload: &Vec<u8>) -> (r: Vec<u8>)
    ensures
        r@ == tag@ + payload@,
{
    let mut r = tag;
    push_all(&mut r, payload.as_slice());
    r
}

/// Writes the canonical `U:` line.
fn build_u_line(u: &Option<u8>) -> (r: Vec<u8>)
    ensures
        r@ == ser_u_line(*u),
{
    let mut r = t_u_v();
    match u {
        None => {
            proof {
                assert(r@ =~= ser_u_line(*u));
            }
        },
        Some(v) => {
            let d = crate::numbers::dec_u8_bytes(*v);
            push_all(&mut r, d.as_slice());
        },
    }
    r
}

/// Writes the canonical `H:` line.
fn build_h_line(h: &Vec<Vec<u8>>) -> (r: Vec<u8>)
    ensures
        r@ == ser_h_line(h.deep_view()),
{
    let mut r = t_h_v();
    let joined = join_bytes(h, SP);
    push_all(&mut r, joined.as_slice());
    r
}

/// Writes one canonical bitmap line with a base-16 mask.
fn build_b_hex(cat: Vec<u8>, v: u64) -> (r: Vec<u8>)
    ensures
        r@ == ser_b_hex(cat@, v),
{
    let mut r = t_b_v();
    push_all(&mut r, cat.as_slice());
    r.push(EQ);
    let hx = crate::numbers::hex_u64_bytes(v);
    push_all(&mut r, hx.as_slice());
    proof {
        assert(r@ =~= ser_b_hex(cat@, v));
    }
    r
}

/// Writes the canonical key-bitmap line.
fn build_b_key(k: &Vec<u8>) -> (r: Vec<u8>)
    ensures
        r@ == ser_b_key(k@),
{
    let mut r = t_b_v();
    let c = c_key_v();
    push_all(&mut r, c.as_slice());
    r.push(EQ);
    push_all(&mut r, k.as_slice());
    proof {
        assert(r@ =~= ser_b_key(k@));
    }
    r
}

/// Appends one category's bitmap line, when present.
fn push_opt_hex(lines: &mut Vec<Vec<u8>>, cat: Vec<u8>, o: Option<u64>)
    ensures
        final(lines).deep_view() == old(lines).deep_view() + opt_b_hex(cat@, o),
{
    let ghost before = lines.deep_view();
    match o {
        None => {
            proof {
                assert(before + opt_b_hex(cat@, o) =~~= before);
            }
        },
        Some(v) => {
            let ghost cv = cat@;
            lines.push(build_b_hex(cat, v));
            proof {
                assert(lines.deep_view() =~~= before + opt_b_hex(cv, o));
            }
        },
    }
}

/// Appends the key-bitmap line, when present.
fn push_opt_key(lines: &mut Vec<Vec<u8>>, k: &Option<Vec<u8>>)
    ensures
        final(lines).deep_view() == old(lines).deep_view() + opt_b_key(k.deep_view()),
{
    let ghost before = lines.deep_view();
    match k {
        None => {
            proof {
                assert(before + opt_b_key(k.deep_view()) =~~= before);
            }
        },
        Some(ks) => {
            lines.push(build_b_key(ks));
            proof {
                assert(lines.deep_view() =~~= before + opt_b_key(k.deep_view()));
            }
        },
    }
}

/// Writes the canonical text of one record: the six tag lines, then one
/// bitmap line per present category.
pub fn serialize_device(d: &InputDevice) -> (r: Vec<u8>)
    ensures
        r@ == ser_device(d@),
{
    let mut lines: Vec<Vec<u8>> = Vec::new();
    lines.push(build_i_line(&d.i));
    lines.push(build_n_line(&d.n));
    lines.push(build_tag_line(t_p_v(), &d.p));
    lines.push(build_tag_line(t_s_v(), &d.s));
    lines.push(build_u_line(&d.u));
    lines.push(build_h_line(&d.h));
    let ghost base = seq![
        ser_i_line(d@.i),
        ser_n_line(d@.n),
        ser_p_line(d@.p),
        ser_s_line(d@.s),
        ser_u_line(d@.u),
        ser_h_line(d@.h),
    ];
    proof {
        assert(lines.deep_view() =~~= base);
    }
    push_opt_hex(&mut lines, c_prop_v(), d.b.prop);
    push_opt_hex(&mut lines, c_ev_v(), d.b.ev);
    push_opt_key(&mut lines, &d.b.key);
    push_opt_hex(&mut lines, c_rel_v(), d.b.rel);
    push_opt_hex(&mut lines, c_abs_v(), d.b.abs);
    push_opt_hex(&mut lines, c_msc_v(), d.b.msc);
    push_opt_hex(&mut lines, c_led_v(), d.b.led);
    push_opt_hex(&mut lines, c_snd_v(), d.b.snd);
    push_opt_hex(&mut lines, c_ff_v(), d.b.ff);
    push_opt_hex(&mut lines, c_sw_v(), d.b.sw);
    proof {
        lemma_ser_device_lines_assoc(d@);
    }
    join_bytes(&lines, NL)
}

/// Concatenation of line groups is associative.
proof fn lemma_assoc(a: Seq<Seq<u8>>, b: Seq<Seq<u8>>, c: Seq<Seq<u8>>)
    ensures
        (a + b) + c == a + (b + c),
{
    assert((a + b) + c =~= a + (b + c));
}

/// The record's lines, written as the serializer appends them, equal the
/// canonical line sequence.
#[verifier::rlimit(100)]
proof fn lemma_ser_device_lines_assoc(m: DeviceModel)
    ensures
        seq![
            ser_i_line(m.i),
            ser_n_line(m.n),
            ser_p_line(m.p),
            ser_s_line(m.s),
            ser_u_line(m.u),
            ser_h_line(m.h),
        ] + opt_b_hex(c_prop(), m.b.prop) + opt_b_hex(c_ev(), m.b.ev) + opt_b_key(m.b.key)
            + opt_b_hex(c_rel(), m.b.rel) + opt_b_hex(c_abs(), m.b.abs) + opt_b_hex(
            c_msc(),
            m.b.msc,
        ) + opt_b_hex(c_led(), m.b.led) + opt_b_hex(c_snd(), m.b.snd) + opt_b_hex(c_ff(), m.b.ff)
            + opt_b_hex(c_sw(), m.b.sw) == ser_device_lines(m),
{
    let head = seq![
        ser_i_line(m.i),
        ser_n_line(m.n),
        ser_p_line(m.p),
        ser_s_line(m.s),
        ser_u_line(m.u),
        ser_h_line(m.h),
    ];
    let s1 = opt_b_hex(c_prop(), m.b.prop);
    let s2 = opt_b_hex(c_ev(), m.b.ev);
    let s3 = opt_b_key(m.b.key);
    let s4 = opt_b_hex(c_rel(), m.b.rel);
    let s5 = opt_b_hex(c_abs(), m.b.abs);
    let s6 = opt_b_hex(c_msc(), m.b.msc);
    let s7 = opt_b_hex(c_led(), m.b.led);
    let s8 = opt_b_hex(c_snd(), m.b.snd);
    let s9 = opt_b_hex(c_ff(), m.b.ff);
    let s10 = opt_b_hex(c_sw(), m.b.sw);
    lemma_assoc(head, s1, s2);
    lemma_assoc(head, s1 + s2, s3);
    lemma_assoc(head, s1 + s2 + s3, s4);
    lemma_assoc(head, s1 + s2 + s3 + s4, s5);
    lemma_assoc(head, s1 + s2 + s3 + s4 + s5, s6);
    lemma_assoc(head, s1 + s2 + s3 + s4 + s5 + s6, s7);
    lemma_assoc(head, s1 + s2 + s3 + s4 + s5 + s6 + s7, s8);
    lemma_assoc(head, s1 + s2 + s3 + s4 + s5 + s6 + s7 + s8, s9);
    lemma_assoc(head, s1 + s2 + s3 + s4 + s5 + s6 + s7 + s8 + s9, s10);
}

/// Writes the canonical registry text of the records, blocks separated by a
/// blank line.
pub fn serialize_devices(ds: &Vec<InputDevice>) -> (r: Vec<u8>)
    ensures
        r@ == ser_registry(ds.deep_view()),
{
    let ghost blocks = ds.deep_view().map_values(|m: DeviceModel| ser_device(m));
    let n = ds.len();
    let mut r: Vec<u8> = Vec::new();
    let mut k: usize = 0;
    proof {
        assert(blocks.take(0) =~~= Seq::<Seq<u8>>::empty());
    }
    while k < n
        invariant
            n == ds@.len(),
            blocks == ds.deep_view().map_values(|m: DeviceModel| ser_device(m)),
            blocks.len() == n,
            0 <= k <= n,
            r@ == join_blank(blocks.take(k as int)),
        decreases n - k,
    {
        proof {
            assert(blocks.take(k + 1) =~~= blocks.take(k as int).push(blocks[k as int]));
            crate::bytes::lemma_join_blank_push(blocks.take(k as int), blocks[k as int]);
            assert(ds.deep_view()[k as int] == ds@[k as int]@);
            assert(blocks[k as int] == ser_device(ds@[k as int]@));
        }
        if k > 0 {
            r.push(NL);
            r.push(NL);
        }
        let block = serialize_device(&ds[k]);
        push_all(&mut r, block.as_slice());
        proof {
            if k == 0 {
                assert(Seq::<u8>::empty() + blocks[0] =~= blocks[0]);
            } else {
                assert(join_blank(blocks.take(k as int)) + seq![NL] + seq![NL] + blocks[k as int]
                    =~= join_blank(blocks.take(k as int)) + seq![NL, NL] + blocks[k as int]);
            }
        }
        k += 1;
    }
    proof {
        assert(blocks.take(n as int) =~~= blocks);
    }
    r
}

/// The bitmap lines from index `i` on, as a fold over the remaining lines
/// alone.
pub open spec fn spec_apply_b_all(ls: Seq<Seq<u8>>, acc: BitMapsModel) -> Result<
    BitMapsModel,
    RegistryError,
>
    decreases ls.len(),
{
    if ls.len() == 0 {
        Ok(acc)
    } else {
        match spec_apply_b_line(acc, ls[0]) {
            Err(e) => Err(e),
            Ok(a2) => spec_apply_b_all(ls.skip(1), a2),
        }
    }
}

/// The indexed fold equals the fold over the remaining lines.
pub proof fn lemma_apply_lines_skip(lines: Seq<Seq<u8>>, i: int, acc: BitMapsModel)
    requires
        0 <= i <= lines.len(),
    ensures
        spec_apply_b_lines(lines, i, acc) == spec_apply_b_all(lines.skip(i), acc),
    decreases lines.len() - i,
{
    if i == lines.len() {
        assert(lines.skip(i).len() == 0);
    } else {
        assert(lines.skip(i)[0] == lines[i]);
        match spec_apply_b_line(acc, lines[i]) {
            Err(e) => {},
            Ok(a2) => {
                lemma_apply_lines_skip(lines, i + 1, a2);
                assert(lines.skip(i).skip(1) =~~= lines.skip(i + 1));
            },
        }
    }
}

/// The fold distributes over concatenation of line groups.
pub proof fn lemma_apply_all_concat(l1: Seq<Seq<u8>>, l2: Seq<Seq<u8>>, acc: BitMapsModel)
    ensures
        spec_apply_b_all(l1 + l2, acc) == match spec_apply_b_all(l1, acc) {
            Ok(a) => spec_apply_b_all(l2, a),
            Err(e) => Err(e),
        },
    decreases l1.len(),
{
    if l1.len() == 0 {
        assert(l1 + l2 =~~= l2);
    } else {
        assert((l1 + l2)[0] == l1[0]);
        assert((l1 + l2).len() > 0);
        match spec_apply_b_line(acc, l1[0]) {
            Err(e) => {},
            Ok(a2) => {
                assert((l1 + l2).skip(1) =~~= l1.skip(1) + l2);
                lemma_apply_all_concat(l1.skip(1), l2, a2);
            },
        }
    }
}

/// The bitmaps after one mask line: the line's own category is replaced,
/// every other field stays.
pub open spec fn set_category(acc: BitMapsModel, cat: Seq<u8>, v: u64) -> BitMapsModel {
    if cat == c_prop() {
        BitMapsModel { prop: Some(v), ..acc }
    } else if cat == c_ev() {
        BitMapsModel { ev: Some(v), ..acc }
    } else if cat == c_rel() {
        BitMapsModel { rel: Some(v), ..acc }
    } else if cat == c_abs() {
        BitMapsModel { abs: Some(v), ..acc }
    } else if cat == c_msc() {
        BitMapsModel { msc: Some(v), ..acc }
    } else if cat == c_led() {
        BitMapsModel { led: Some(v), ..acc }
    } else if cat == c_snd() {
        BitMapsModel { snd: Some(v), ..acc }
    } else if cat == c_ff() {
        BitMapsModel { ff: Some(v), ..acc }
    } else if cat == c_sw() {
        BitMapsModel { sw: Some(v), ..acc }
    } else {
        acc
    }
}

/// Reading back a canonical mask line sets exactly its category.
pub proof fn lemma_apply_b_hex_line(acc: BitMapsModel, cat: Seq<u8>, v: u64)
    requires
        sep_free(cat, EQ),
        cat != c_key(),
    ensures
        spec_apply_b_line(acc, ser_b_hex(cat, v)) == Ok::<BitMapsModel, RegistryError>(
            set_category(acc, cat, v),
        ),
{
    let hx = crate::numbers::ser_hex64(v);
    let pl = cat + seq![EQ] + hx;
    crate::bytes::lemma_prefix_concat(t_b(), pl);
    crate::numbers::lemma_ser_hex64_all_hex(v);
    crate::numbers::lemma_hex_text_free(hx);
    crate::bytes::lemma_find_first_planted(cat, hx, EQ);
    assert(find_first(pl, EQ) == cat.len());
    assert(pl.take(cat.len() as int) =~= cat);
    assert(pl.skip(cat.len() as int + 1) =~= hx);
    crate::numbers::lemma_hex64_roundtrip(v);
}

/// Reading back a canonical key line sets exactly the key text.
pub proof fn lemma_apply_b_key_line(acc: BitMapsModel, k: Seq<u8>)
    ensures
        spec_apply_b_line(acc, ser_b_key(k)) == Ok::<BitMapsModel, RegistryError>(
            BitMapsModel { key: Some(k), ..acc },
        ),
{
    let pl = c_key() + seq![EQ] + k;
    crate::bytes::lemma_prefix_concat(t_b(), pl);
    crate::text::c_key_free();
    crate::bytes::lemma_find_first_planted(c_key(), k, EQ);
    assert(find_first(pl, EQ) == c_key().len());
    assert(pl.take(c_key().len() as int) =~= c_key());
    assert(pl.skip(c_key().len() as int + 1) =~= k);
}

/// Reading back one category's optional line from `acc` replaces that
/// category with the serialized value.
pub proof fn lemma_apply_opt_hex(acc: BitMapsModel, cat: Seq<u8>, o: Option<u64>)
    requires
        sep_free(cat, EQ),
        cat != c_key(),
    ensures
        spec_apply_b_all(opt_b_hex(cat, o), acc) == Ok::<BitMapsModel, RegistryError>(
            match o {
                None => acc,
                Some(v) => set_category(acc, cat, v),
            },
        ),
{
    match o {
        None => {
            assert(opt_b_hex(cat, o).len() == 0);
            assert(spec_apply_b_all(opt_b_hex(cat, o), acc) == Ok::<BitMapsModel, RegistryError>(
                acc,
            ));
        },
        Some(v) => {
            reveal_with_fuel(spec_apply_b_all, 3);
            let ls = opt_b_hex(cat, o);
            assert(ls[0] == ser_b_hex(cat, v));
            lemma_apply_b_hex_line(acc, cat, v);
            assert(ls.skip(1).len() == 0);
            assert(spec_apply_b_all(ls.skip(1), set_category(acc, cat, v))
                == Ok::<BitMapsModel, RegistryError>(set_category(acc, cat, v)));
        },
    }
}

/// As `lemma_apply_opt_hex`, for the key line.
pub proof fn lemma_apply_opt_key(acc: BitMapsModel, o: Option<Seq<u8>>)
    ensures
        spec_apply_b_all(opt_b_key(o), acc) == Ok::<BitMapsModel, RegistryError>(
            match o {
                None => acc,
                Some(k) => BitMapsModel { key: Some(k), ..acc },
            },
        ),
{
    match o {
        None => {
            assert(opt_b_key(o).len() == 0);
            assert(spec_apply_b_all(opt_b_key(o), acc) == Ok::<BitMapsModel, RegistryError>(acc));
        },
        Some(k) => {
            reveal_with_fuel(spec_apply_b_all, 3);
            let ls = opt_b_key(o);
            assert(ls[0] == ser_b_key(k));
            lemma_apply_b_key_line(acc, k);
            assert(ls.skip(1).len() == 0);
            assert(spec_apply_b_all(ls.skip(1), BitMapsModel { key: Some(k), ..acc })
                == Ok::<BitMapsModel, RegistryError>(BitMapsModel { key: Some(k), ..acc }));
        },
    }
}

/// Reading back the trailing seven category lines from any starting
/// bitmaps replaces exactly those categories.
#[verifier::rlimit(100)]
proof fn lemma_apply_b_ser_tail(b: BitMapsModel, acc: BitMapsModel)
    requires
        acc.rel == None::<u64>,
        acc.abs == None::<u64>,
        acc.msc == None::<u64>,
        acc.led == None::<u64>,
        acc.snd == None::<u64>,
        acc.ff == None::<u64>,
        acc.sw == None::<u64>,
    ensures
        spec_apply_b_all(
            opt_b_hex(c_rel(), b.rel) + opt_b_hex(c_abs(), b.abs) + opt_b_hex(c_msc(), b.msc)
                + opt_b_hex(c_led(), b.led) + opt_b_hex(c_snd(), b.snd) + opt_b_hex(
                c_ff(),
                b.ff,
            ) + opt_b_hex(c_sw(), b.sw),
            acc,
        ) == Ok::<BitMapsModel, RegistryError>(
            BitMapsModel {
                rel: b.rel,
                abs: b.abs,
                msc: b.msc,
                led: b.led,
                snd: b.snd,
                ff: b.ff,
                sw: b.sw,
                ..acc
            },
        ),
{
    crate::text::c_rel_free();
    crate::text::c_abs_free();
    crate::text::c_msc_free();
    crate::text::c_led_free();
    crate::text::c_snd_free();
    crate::text::c_ff_free();
    crate::text::c_sw_free();
    crate::text::c_key_free();
    let s4 = opt_b_hex(c_rel(), b.rel);
    let s5 = opt_b_hex(c_abs(), b.abs);
    let s6 = opt_b_hex(c_msc(), b.msc);
    let s7 = opt_b_hex(c_led(), b.led);
    let s8 = opt_b_hex(c_snd(), b.snd);
    let s9 = opt_b_hex(c_ff(), b.ff);
    let s10 = opt_b_hex(c_sw(), b.sw);
    let a3 = acc;
    lemma_apply_opt_hex(a3, c_rel(), b.rel);
    let a4 = BitMapsModel { rel: b.rel, ..a3 };
    assert(spec_apply_b_all(s4, a3) == Ok::<BitMapsModel, RegistryError>(a4)) by {
        match b.rel {
            None => {
                assert(a4 =~= a3);
            },
            Some(v) => {
                assert(set_category(a3, c_rel(), v) =~= a4);
            },
        }
    }
    lemma_apply_opt_hex(a4, c_abs(), b.abs);
    let a5 = BitMapsModel { abs: b.abs, ..a4 };
    assert(spec_apply_b_all(s5, a4) == Ok::<BitMapsModel, RegistryError>(a5)) by {
        match b.abs {
            None => {
                assert(a5 =~= a4);
            },
            Some(v) => {
                assert(set_category(a4, c_abs(), v) =~= a5);
            },
        }
    }
    lemma_apply_opt_hex(a5, c_msc(), b.msc);
    let a6 = BitMapsModel { msc: b.msc, ..a5 };
    assert(spec_apply_b_all(s6, a5) == Ok::<BitMapsModel, RegistryError>(a6)) by {
        match b.msc {
            None => {
                assert(a6 =~= a5);
            },
            Some(v) => {
                assert(set_category(a5, c_msc(), v) =~= a6);
            },
        }
    }
    lemma_apply_opt_hex(a6, c_led(), b.led);
    let a7 = BitMapsModel { led: b.led, ..a6 };
    assert(spec_apply_b_all(s7, a6) == Ok::<BitMapsModel, RegistryError>(a7)) by {
        match b.led {
            None => {
                assert(a7 =~= a6);
            },
            Some(v) => {
                assert(set_category(a6, c_led(), v) =~= a7);
            },
        }
    }
    lemma_apply_opt_hex(a7, c_snd(), b.snd);
    let a8 = BitMapsModel { snd: b.snd, ..a7 };
    assert(spec_apply_b_all(s8, a7) == Ok::<BitMapsModel, RegistryError>(a8)) by {
        match b.snd {
            None => {
                assert(a8 =~= a7);
            },
            Some(v) => {
                assert(set_category(a7, c_snd(), v) =~= a8);
            },
        }
    }
    lemma_apply_opt_hex(a8, c_ff(), b.ff);
    let a9 = BitMapsModel { ff: b.ff, ..a8 };
    assert(spec_apply_b_all(s9, a8) == Ok::<BitMapsModel, RegistryError>(a9)) by {
        match b.ff {
            None => {
                assert(a9 =~= a8);
            },
            Some(v) => {
                assert(set_category(a8, c_ff(), v) =~= a9);
            },
        }
    }
    lemma_apply_opt_hex(a9, c_sw(), b.sw);
    let a10 = BitMapsModel { sw: b.sw, ..a9 };
    assert(spec_apply_b_all(s10, a9) == Ok::<BitMapsModel, RegistryError>(a10)) by {
        match b.sw {
            None => {
                assert(a10 =~= a9);
            },
            Some(v) => {
                assert(set_category(a9, c_sw(), v) =~= a10);
            },
        }
    }
    let rest9 = s10;
    let rest8 = s9 + rest9;
    let rest7 = s8 + rest8;
    let rest6 = s7 + rest7;
    let rest5 = s6 + rest6;
    let rest4 = s5 + rest5;
    let whole = s4 + rest4;
    assert(s4 + s5 + s6 + s7 + s8 + s9 + s10 =~~= whole);
    lemma_apply_all_concat(s4, rest4, a3);
    lemma_apply_all_concat(s5, rest5, a4);
    lemma_apply_all_concat(s6, rest6, a5);
    lemma_apply_all_concat(s7, rest7, a6);
    lemma_apply_all_concat(s8, rest8, a7);
    lemma_apply_all_concat(s9, rest9, a8);
    assert(spec_apply_b_all(whole, a3) == Ok::<BitMapsModel, RegistryError>(a10));
    assert(a10 =~= BitMapsModel {
        rel: b.rel,
        abs: b.abs,
        msc: b.msc,
        led: b.led,
        snd: b.snd,
        ff: b.ff,
        sw: b.sw,
        ..acc
    });
}

/// Reading back all canonical bitmap lines from no categories reconstructs
/// the bitmaps exactly.
#[verifier::rlimit(100)]
pub proof fn lemma_apply_b_ser(b: BitMapsModel)
    ensures
        spec_apply_b_all(ser_b_lines(b), empty_bits()) == Ok::<BitMapsModel, RegistryError>(b),
{
    crate::text::c_prop_free();
    crate::text::c_ev_free();
    crate::text::c_key_free();
    let s1 = opt_b_hex(c_prop(), b.prop);
    let s2 = opt_b_hex(c_ev(), b.ev);
    let s3 = opt_b_key(b.key);
    let tail = opt_b_hex(c_rel(), b.rel) + opt_b_hex(c_abs(), b.abs) + opt_b_hex(c_msc(), b.msc)
        + opt_b_hex(c_led(), b.led) + opt_b_hex(c_snd(), b.snd) + opt_b_hex(c_ff(), b.ff)
        + opt_b_hex(c_sw(), b.sw);
    let a0 = empty_bits();
    lemma_apply_opt_hex(a0, c_prop(), b.prop);
    let a1 = BitMapsModel { prop: b.prop, ..a0 };
    assert(spec_apply_b_all(s1, a0) == Ok::<BitMapsModel, RegistryError>(a1)) by {
        match b.prop {
            None => {
                assert(a1 =~= a0);
            },
            Some(v) => {
                assert(set_category(a0, c_prop(), v) =~= a1);
            },
        }
    }
    lemma_apply_opt_hex(a1, c_ev(), b.ev);
    let a2 = BitMapsModel { ev: b.ev, ..a1 };
    assert(spec_apply_b_all(s2, a1) == Ok::<BitMapsModel, RegistryError>(a2)) by {
        match b.ev {
            None => {
                assert(a2 =~= a1);
            },
            Some(v) => {
                assert(set_category(a1, c_ev(), v) =~= a2);
            },
        }
    }
    lemma_apply_opt_key(a2, b.key);
    let a3 = BitMapsModel { key: b.key, ..a2 };
    assert(spec_apply_b_all(s3, a2) == Ok::<BitMapsModel, RegistryError>(a3)) by {
        match b.key {
            None => {
                assert(a3 =~= a2);
            },
            Some(k) => {
                assert(BitMapsModel { key: Some(k), ..a2 } =~= a3);
            },
        }
    }
    lemma_apply_b_ser_tail(b, a3);
    let a10 = BitMapsModel {
        rel: b.rel,
        abs: b.abs,
        msc: b.msc,
        led: b.led,
        snd: b.snd,
        ff: b.ff,
        sw: b.sw,
        ..a3
    };
    let s4 = opt_b_hex(c_rel(), b.rel);
    let s5 = opt_b_hex(c_abs(), b.abs);
    let s6 = opt_b_hex(c_msc(), b.msc);
    let s7 = opt_b_hex(c_led(), b.led);
    let s8 = opt_b_hex(c_snd(), b.snd);
    let s9 = opt_b_hex(c_ff(), b.ff);
    let s10 = opt_b_hex(c_sw(), b.sw);
    let p3 = s1 + s2 + s3;
    lemma_assoc(p3, s4, s5);
    lemma_assoc(p3, s4 + s5, s6);
    lemma_assoc(p3, s4 + s5 + s6, s7);
    lemma_assoc(p3, s4 + s5 + s6 + s7, s8);
    lemma_assoc(p3, s4 + s5 + s6 + s7 + s8, s9);
    lemma_assoc(p3, s4 + s5 + s6 + s7 + s8 + s9, s10);
    assert(ser_b_lines(b) == p3 + tail);
    lemma_assoc(s1 + s2, s3, tail);
    lemma_assoc(s1, s2, s3 + tail);
    let rest2 = s3 + tail;
    let rest1 = s2 + rest2;
    let whole = s1 + rest1;
    assert(ser_b_lines(b) == whole);
    lemma_apply_all_concat(s1, rest1, a0);
    lemma_apply_all_concat(s2, rest2, a1);
    lemma_apply_all_concat(s3, tail, a2);
    assert(spec_apply_b_all(ser_b_lines(b), a0) == Ok::<BitMapsModel, RegistryError>(a10));
    assert(a10 =~= b);
}

/// Lines the block grammar can carry: each nonempty and free of newlines.
pub open spec fn lines_wf(ls: Seq<Seq<u8>>) -> bool {
    forall|i: int| 0 <= i < ls.len() ==> sep_free(#[trigger] ls[i], NL) && ls[i].len() > 0
}

pub proof fn lemma_lines_wf_concat(a: Seq<Seq<u8>>, b: Seq<Seq<u8>>)
    requires
        lines_wf(a),
        lines_wf(b),
    ensures
        lines_wf(a + b),
{
    assert forall|i: int| 0 <= i < (a + b).len() implies sep_free(#[trigger] (a + b)[i], NL) && (a
        + b)[i].len() > 0 by {
        if i < a.len() {
            assert((a + b)[i] == a[i]);
        } else {
            assert((a + b)[i] == b[i - a.len()]);
        }
    }
}

pub proof fn lemma_opt_hex_wf(cat: Seq<u8>, o: Option<u64>)
    requires
        sep_free(cat, NL),
    ensures
        lines_wf(opt_b_hex(cat, o)),
{
    match o {
        None => {},
        Some(v) => {
            let hx = crate::numbers::ser_hex64(v);
            crate::numbers::lemma_ser_hex64_all_hex(v);
            crate::numbers::lemma_hex_text_free(hx);
            crate::text::t_b_free();
            assert(sep_free(seq![EQ], NL));
            crate::bytes::lemma_sep_free_concat(cat, seq![EQ], NL);
            crate::bytes::lemma_sep_free_concat(cat + seq![EQ], hx, NL);
            crate::bytes::lemma_sep_free_concat(t_b(), cat + seq![EQ] + hx, NL);
            assert(lines_wf(opt_b_hex(cat, o))) by {
                assert(opt_b_hex(cat, o)[0] == ser_b_hex(cat, v));
                assert(ser_b_hex(cat, v).len() > 0);
            }
        },
    }
}

pub proof fn lemma_opt_key_wf(o: Option<Seq<u8>>)
    requires
        match o {
            None => true,
            Some(k) => sep_free(k, NL),
        },
    ensures
        lines_wf(opt_b_key(o)),
{
    match o {
        None => {},
        Some(k) => {
            crate::text::t_b_free();
            crate::text::c_key_free();
            assert(sep_free(seq![EQ], NL));
            crate::bytes::lemma_sep_free_concat(c_key(), seq![EQ], NL);
            crate::bytes::lemma_sep_free_concat(c_key() + seq![EQ], k, NL);
            crate::bytes::lemma_sep_free_concat(t_b(), c_key() + seq![EQ] + k, NL);
            assert(lines_wf(opt_b_key(o))) by {
                assert(opt_b_key(o)[0] == ser_b_key(k));
                assert(ser_b_key(k).len() > 0);
            }
        },
    }
}

/// The canonical lines of a well-formed record are themselves well-formed
/// block lines.
pub proof fn lemma_ser_lines_wf(m: DeviceModel)
    requires
        wf_device(m),
    ensures
        lines_wf(ser_device_lines(m)),
{
    crate::text::t_i_free();
    crate::text::t_bus_free();
    crate::text::t_vendor_free();
    crate::text::t_product_free();
    crate::text::t_version_free();
    crate::text::t_n_free();
    crate::text::t_p_free();
    crate::text::t_s_free();
    crate::text::t_u_free();
    crate::text::t_h_free();
    let toks = ser_id_toks(m.i);
    assert forall|i: int| 0 <= i < toks.len() implies sep_free(#[trigger] toks[i], NL) by {
        crate::numbers::lemma_ser_hex16_all_hex(m.i.bus_type);
        crate::numbers::lemma_ser_hex16_all_hex(m.i.vendor);
        crate::numbers::lemma_ser_hex16_all_hex(m.i.product);
        crate::numbers::lemma_ser_hex16_all_hex(m.i.version);
        crate::numbers::lemma_hex_text_free(crate::numbers::ser_hex16(m.i.bus_type));
        crate::numbers::lemma_hex_text_free(crate::numbers::ser_hex16(m.i.vendor));
        crate::numbers::lemma_hex_text_free(crate::numbers::ser_hex16(m.i.product));
        crate::numbers::lemma_hex_text_free(crate::numbers::ser_hex16(m.i.version));
        if i == 0 {
            crate::bytes::lemma_sep_free_concat(
                t_bus(),
                crate::numbers::ser_hex16(m.i.bus_type),
                NL,
            );
        } else if i == 1 {
            crate::bytes::lemma_sep_free_concat(
                t_vendor(),
                crate::numbers::ser_hex16(m.i.vendor),
                NL,
            );
        } else if i == 2 {
            crate::bytes::lemma_sep_free_concat(
                t_product(),
                crate::numbers::ser_hex16(m.i.product),
                NL,
            );
        } else {
            crate::bytes::lemma_sep_free_concat(
                t_version(),
                crate::numbers::ser_hex16(m.i.version),
                NL,
            );
        }
    }
    crate::bytes::lemma_join_sep_free(toks, SP, NL);
    crate::bytes::lemma_sep_free_concat(t_i(), join_on(toks, SP), NL);
    assert(sep_free(ser_i_line(m.i), NL));
    assert(sep_free(seq![QU], NL));
    crate::bytes::lemma_sep_free_concat(seq![QU], m.n, NL);
    crate::bytes::lemma_sep_free_concat(seq![QU] + m.n, seq![QU], NL);
    crate::bytes::lemma_sep_free_concat(t_n(), seq![QU] + m.n + seq![QU], NL);
    assert(sep_free(ser_n_line(m.n), NL));
    crate::bytes::lemma_sep_free_concat(t_p(), m.p, NL);
    crate::bytes::lemma_sep_free_concat(t_s(), m.s, NL);
    match m.u {
        None => {
            crate::bytes::lemma_sep_free_concat(t_u(), Seq::<u8>::empty(), NL);
        },
        Some(v) => {
            crate::numbers::lemma_ser_dec_u8_all_dec(v);
            crate::numbers::lemma_dec_text_free(crate::numbers::ser_dec_u8(v));
            crate::bytes::lemma_sep_free_concat(t_u(), crate::numbers::ser_dec_u8(v), NL);
        },
    }
    assert(sep_free(ser_u_line(m.u), NL));
    assert forall|i: int| 0 <= i < m.h.len() implies sep_free(#[trigger] m.h[i], NL) by {
        assert(wf_handler(m.h[i]));
    }
    crate::bytes::lemma_join_sep_free(m.h, SP, NL);
    crate::bytes::lemma_sep_free_concat(t_h(), join_on(m.h, SP), NL);
    assert(sep_free(ser_h_line(m.h), NL));
    let head = seq![
        ser_i_line(m.i),
        ser_n_line(m.n),
        ser_p_line(m.p),
        ser_s_line(m.s),
        ser_u_line(m.u),
        ser_h_line(m.h),
    ];
    assert(lines_wf(head)) by {
        assert forall|i: int| 0 <= i < head.len() implies sep_free(#[trigger] head[i], NL)
            && head[i].len() > 0 by {
            if i == 0 {
                assert(head[0] == ser_i_line(m.i));
            } else if i == 1 {
                assert(head[1] == ser_n_line(m.n));
            } else if i == 2 {
                assert(head[2] == ser_p_line(m.p));
            } else if i == 3 {
                assert(head[3] == ser_s_line(m.s));
            } else if i == 4 {
                assert(head[4] == ser_u_line(m.u));
            } else {
                assert(head[5] == ser_h_line(m.h));
            }
        }
    }
    crate::text::c_prop_free();
    crate::text::c_ev_free();
    crate::text::c_key_free();
    crate::text::c_rel_free();
    crate::text::c_abs_free();
    crate::text::c_msc_free();
    crate::text::c_led_free();
    crate::text::c_snd_free();
    crate::text::c_ff_free();
    crate::text::c_sw_free();
    lemma_opt_hex_wf(c_prop(), m.b.prop);
    lemma_opt_hex_wf(c_ev(), m.b.ev);
    lemma_opt_key_wf(m.b.key);
    lemma_opt_hex_wf(c_rel(), m.b.rel);
    lemma_opt_hex_wf(c_abs(), m.b.abs);
    lemma_opt_hex_wf(c_msc(), m.b.msc);
    lemma_opt_hex_wf(c_led(), m.b.led);
    lemma_opt_hex_wf(c_snd(), m.b.snd);
    lemma_opt_hex_wf(c_ff(), m.b.ff);
    lemma_opt_hex_wf(c_sw(), m.b.sw);
    lemma_lines_wf_concat(opt_b_hex(c_prop(), m.b.prop), opt_b_hex(c_ev(), m.b.ev));
    lemma_lines_wf_concat(
        opt_b_hex(c_prop(), m.b.prop) + opt_b_hex(c_ev(), m.b.ev),
        opt_b_key(m.b.key),
    );
    lemma_lines_wf_concat(
        opt_b_hex(c_prop(), m.b.prop) + opt_b_hex(c_ev(), m.b.ev) + opt_b_key(m.b.key),
        opt_b_hex(c_rel(), m.b.rel),
    );
    lemma_lines_wf_concat(
        opt_b_hex(c_prop(), m.b.prop) + opt_b_hex(c_ev(), m.b.ev) + opt_b_key(m.b.key) + opt_b_hex(
            c_rel(),
            m.b.rel,
        ),
        opt_b_hex(c_abs(), m.b.abs),
    );
    lemma_lines_wf_concat(
        opt_b_hex(c_prop(), m.b.prop) + opt_b_hex(c_ev(), m.b.ev) + opt_b_key(m.b.key) + opt_b_hex(
            c_rel(),
            m.b.rel,
        ) + opt_b_hex(c_abs(), m.b.abs),
        opt_b_hex(c_msc(), m.b.msc),
    );
    lemma_lines_wf_concat(
        opt_b_hex(c_prop(), m.b.prop) + opt_b_hex(c_ev(), m.b.ev) + opt_b_key(m.b.key) + opt_b_hex(
            c_rel(),
            m.b.rel,
        ) + opt_b_hex(c_abs(), m.b.abs) + opt_b_hex(c_msc(), m.b.msc),
        opt_b_hex(c_led(), m.b.led),
    );
    lemma_lines_wf_concat(
        opt_b_hex(c_prop(), m.b.prop) + opt_b_hex(c_ev(), m.b.ev) + opt_b_key(m.b.key) + opt_b_hex(
            c_rel(),
            m.b.rel,
        ) + opt_b_hex(c_abs(), m.b.abs) + opt_b_hex(c_msc(), m.b.msc) + opt_b_hex(
            c_led(),
            m.b.led,
        ),
        opt_b_hex(c_snd(), m.b.snd),
    );
    lemma_lines_wf_concat(
        opt_b_hex(c_prop(), m.b.prop) + opt_b_hex(c_ev(), m.b.ev) + opt_b_key(m.b.key) + opt_b_hex(
            c_rel(),
            m.b.rel,
        ) + opt_b_hex(c_abs(), m.b.abs) + opt_b_hex(c_msc(), m.b.msc) + opt_b_hex(
            c_led(),
            m.b.led,
        ) + opt_b_hex(c_snd(), m.b.snd),
        opt_b_hex(c_ff(), m.b.ff),
    );
    lemma_lines_wf_concat(
        opt_b_hex(c_prop(), m.b.prop) + opt_b_hex(c_ev(), m.b.ev) + opt_b_key(m.b.key) + opt_b_hex(
            c_rel(),
            m.b.rel,
        ) + opt_b_hex(c_abs(), m.b.abs) + opt_b_hex(c_msc(), m.b.msc) + opt_b_hex(
            c_led(),
            m.b.led,
        ) + opt_b_hex(c_snd(), m.b.snd) + opt_b_hex(c_ff(), m.b.ff),
        opt_b_hex(c_sw(), m.b.sw),
    );
    assert(lines_wf(ser_b_lines(m.b)));
    lemma_lines_wf_concat(head, ser_b_lines(m.b));
    assert(ser_device_lines(m) == head + ser_b_lines(m.b));
}

/// Reading back the canonical identifier line returns the identifier.
pub proof fn lemma_i_line_rt(id: DeviceId)
    ensures
        spec_parse_i_line(ser_i_line(id)) == Ok::<DeviceId, RegistryError>(id),
{
    let toks = ser_id_toks(id);
    let payload = join_on(toks, SP);
    crate::bytes::lemma_prefix_concat(t_i(), payload);
    crate::text::t_bus_free();
    crate::text::t_vendor_free();
    crate::text::t_product_free();
    crate::text::t_version_free();
    crate::numbers::lemma_ser_hex16_all_hex(id.bus_type);
    crate::numbers::lemma_ser_hex16_all_hex(id.vendor);
    crate::numbers::lemma_ser_hex16_all_hex(id.product);
    crate::numbers::lemma_ser_hex16_all_hex(id.version);
    crate::numbers::lemma_hex_text_free(crate::numbers::ser_hex16(id.bus_type));
    crate::numbers::lemma_hex_text_free(crate::numbers::ser_hex16(id.vendor));
    crate::numbers::lemma_hex_text_free(crate::numbers::ser_hex16(id.product));
    crate::numbers::lemma_hex_text_free(crate::numbers::ser_hex16(id.version));
    assert forall|i: int| 0 <= i < toks.len() implies sep_free(#[trigger] toks[i], SP) by {
        if i == 0 {
            crate::bytes::lemma_sep_free_concat(
                t_bus(),
                crate::numbers::ser_hex16(id.bus_type),
                SP,
            );
        } else if i == 1 {
            crate::bytes::lemma_sep_free_concat(
                t_vendor(),
                crate::numbers::ser_hex16(id.vendor),
                SP,
            );
        } else if i == 2 {
            crate::bytes::lemma_sep_free_concat(
                t_product(),
                crate::numbers::ser_hex16(id.product),
                SP,
            );
        } else {
            crate::bytes::lemma_sep_free_concat(
                t_version(),
                crate::numbers::ser_hex16(id.version),
                SP,
            );
        }
    }
    crate::bytes::lemma_split_join(toks, SP);
    crate::bytes::lemma_prefix_concat(t_bus(), crate::numbers::ser_hex16(id.bus_type));
    crate::bytes::lemma_prefix_concat(t_vendor(), crate::numbers::ser_hex16(id.vendor));
    crate::bytes::lemma_prefix_concat(t_product(), crate::numbers::ser_hex16(id.product));
    crate::bytes::lemma_prefix_concat(t_version(), crate::numbers::ser_hex16(id.version));
    crate::numbers::lemma_hex16_roundtrip(id.bus_type);
    crate::numbers::lemma_hex16_roundtrip(id.vendor);
    crate::numbers::lemma_hex16_roundtrip(id.product);
    crate::numbers::lemma_hex16_roundtrip(id.version);
    assert(spec_parse_id_token(toks[0], t_bus()) == Some(id.bus_type));
    assert(spec_parse_id_token(toks[1], t_vendor()) == Some(id.vendor));
    assert(spec_parse_id_token(toks[2], t_product()) == Some(id.product));
    assert(spec_parse_id_token(toks[3], t_version()) == Some(id.version));
}

/// Reading back the canonical name line returns the name.
pub proof fn lemma_n_line_rt(n: Seq<u8>)
    ensures
        spec_parse_n_line(ser_n_line(n)) == Ok::<Seq<u8>, RegistryError>(n),
{
    let pl = seq![QU] + n + seq![QU];
    crate::bytes::lemma_prefix_concat(t_n(), pl);
    assert(pl.len() >= 2);
    assert(pl.subrange(1, pl.len() - 1) =~= n);
}

/// Empty tokens dropped from all-nonempty tokens: nothing changes.
pub proof fn lemma_keep_nonempty_id(ts: Seq<Seq<u8>>)
    requires
        forall|i: int| 0 <= i < ts.len() ==> (#[trigger] ts[i]).len() > 0,
    ensures
        keep_nonempty(ts) == ts,
    decreases ts.len(),
{
    if ts.len() == 0 {
        assert(keep_nonempty(ts) =~~= ts);
    } else {
        assert(forall|i: int| 0 <= i < ts.drop_last().len() ==> ts.drop_last()[i] == ts[i]);
        lemma_keep_nonempty_id(ts.drop_last());
        assert(ts.last().len() > 0);
        assert(keep_nonempty(ts) == ts.drop_last().push(ts.last()));
        assert(ts.drop_last().push(ts.last()) =~~= ts);
    }
}

/// Duplicates dropped from pairwise-distinct tokens: nothing changes.
pub proof fn lemma_first_occurrences_id(ts: Seq<Seq<u8>>)
    requires
        forall|i: int, j: int| 0 <= i < j < ts.len() ==> ts[i] != ts[j],
    ensures
        first_occurrences(ts) == ts,
    decreases ts.len(),
{
    if ts.len() == 0 {
        assert(first_occurrences(ts) =~~= ts);
    } else {
        assert(forall|i: int| 0 <= i < ts.drop_last().len() ==> ts.drop_last()[i] == ts[i]);
        lemma_first_occurrences_id(ts.drop_last());
        assert(!ts.drop_last().contains(ts.last())) by {
            if ts.drop_last().contains(ts.last()) {
                let i = choose|i: int|
                    0 <= i < ts.drop_last().len() && ts.drop_last()[i] == ts.last();
                assert(ts[i] == ts[ts.len() - 1]);
            }
        }
        assert(first_occurrences(ts) == ts.drop_last().push(ts.last()));
        assert(ts.drop_last().push(ts.last()) =~~= ts);
    }
}

/// Reading back the canonical handlers line returns the handler tokens.
pub proof fn lemma_h_line_rt(h: Seq<Seq<u8>>)
    requires
        forall|i: int| 0 <= i < h.len() ==> wf_handler(#[trigger] h[i]),
        forall|i: int, j: int| 0 <= i < j < h.len() ==> h[i] != h[j],
    ensures
        spec_parse_h_line(ser_h_line(h)) == Ok::<Seq<Seq<u8>>, RegistryError>(h),
{
    let pl = join_on(h, SP);
    crate::bytes::lemma_prefix_concat(t_h(), pl);
    if h.len() == 0 {
        assert(pl == Seq::<u8>::empty());
        assert(split_on(pl, SP) == seq![Seq::<u8>::empty()]);
        let one = seq![Seq::<u8>::empty()];
        reveal_with_fuel(keep_nonempty, 3);
        reveal_with_fuel(first_occurrences, 3);
        assert(one.drop_last() =~~= Seq::<Seq<u8>>::empty());
        assert(keep_nonempty(Seq::<Seq<u8>>::empty()) == Seq::<Seq<u8>>::empty());
        assert(keep_nonempty(one) == Seq::<Seq<u8>>::empty());
        assert(first_occurrences(keep_nonempty(one)) =~~= h);
    } else {
        assert forall|i: int| 0 <= i < h.len() implies sep_free(#[trigger] h[i], SP) by {
            assert(wf_handler(h[i]));
        }
        crate::bytes::lemma_split_join(h, SP);
        assert forall|i: int| 0 <= i < h.len() implies (#[trigger] h[i]).len() > 0 by {
            assert(wf_handler(h[i]));
        }
        lemma_keep_nonempty_id(h);
        lemma_first_occurrences_id(h);
    }
}

/// Parsing the canonical text of a well-formed record returns exactly that
/// record.
pub proof fn lemma_device_roundtrip(m: DeviceModel)
    requires
        wf_device(m),
    ensures
        spec_parse_device(ser_device(m)) == Ok::<DeviceModel, RegistryError>(m),
{
    let lines = ser_device_lines(m);
    lemma_ser_lines_wf(m);
    assert forall|i: int| 0 <= i < lines.len() implies sep_free(#[trigger] lines[i], NL) by {
        assert(sep_free(lines[i], NL) && lines[i].len() > 0);
    }
    crate::bytes::lemma_split_join(lines, NL);
    assert(split_on(ser_device(m), NL) == lines);
    assert(lines.len() >= 6);
    assert(lines[0] == ser_i_line(m.i));
    assert(lines[1] == ser_n_line(m.n));
    assert(lines[2] == ser_p_line(m.p));
    assert(lines[3] == ser_s_line(m.s));
    assert(lines[4] == ser_u_line(m.u));
    assert(lines[5] == ser_h_line(m.h));
    lemma_i_line_rt(m.i);
    lemma_n_line_rt(m.n);
    crate::bytes::lemma_prefix_concat(t_p(), m.p);
    crate::bytes::lemma_prefix_concat(t_s(), m.s);
    assert(spec_parse_p_line(lines[2]) == Ok::<Seq<u8>, RegistryError>(m.p));
    assert(spec_parse_s_line(lines[3]) == Ok::<Seq<u8>, RegistryError>(m.s));
    match m.u {
        None => {
            crate::bytes::lemma_prefix_concat(t_u(), Seq::<u8>::empty());
            assert(spec_parse_u_line(lines[4]) == Ok::<Option<u8>, RegistryError>(None));
        },
        Some(v) => {
            crate::bytes::lemma_prefix_concat(t_u(), crate::numbers::ser_dec_u8(v));
            crate::numbers::lemma_dec_u8_roundtrip(v);
            assert(spec_parse_u_line(lines[4]) == Ok::<Option<u8>, RegistryError>(Some(v)));
        },
    }
    lemma_h_line_rt(m.h);
    lemma_apply_lines_skip(lines, 6, empty_bits());
    assert(lines.skip(6) =~~= ser_b_lines(m.b));
    lemma_apply_b_ser(m.b);
    assert(spec_apply_b_lines(lines, 6, empty_bits()) == Ok::<BitMapsModel, RegistryError>(m.b));
    let parsed = spec_parse_device_lines(lines);
    assert(parsed == Ok::<DeviceModel, RegistryError>(
        DeviceModel { i: m.i, n: m.n, p: m.p, s: m.s, u: m.u, h: m.h, b: m.b },
    ));
    assert(DeviceModel { i: m.i, n: m.n, p: m.p, s: m.s, u: m.u, h: m.h, b: m.b } =~= m);
}

/// Parsing the canonical blocks from index `i` on returns the records from
/// `i` on.
#[verifier::rlimit(100)]
proof fn lemma_parse_ser_blocks(ms: Seq<DeviceModel>, i: int)
    requires
        0 <= i <= ms.len(),
        forall|k: int| 0 <= k < ms.len() ==> wf_device(#[trigger] ms[k]),
    ensures
        spec_parse_registry_blocks(ms.map_values(|m: DeviceModel| ser_device(m)), i) == Ok::<
            Seq<DeviceModel>,
            RegistryError,
        >(ms.skip(i)),
    decreases ms.len() - i,
{
    let blocks = ms.map_values(|m: DeviceModel| ser_device(m));
    if i == ms.len() {
        assert(ms.skip(i) =~~= Seq::<DeviceModel>::empty());
    } else {
        assert(blocks[i] == ser_device(ms[i]));
        lemma_ser_lines_wf(ms[i]);
        crate::bytes::lemma_join_lines_blank_free(ser_device_lines(ms[i])) ;
        assert(blocks[i].len() > 0);
        lemma_device_roundtrip(ms[i]);
        lemma_parse_ser_blocks(ms, i + 1);
        assert(seq![ms[i]] + ms.skip(i + 1) =~~= ms.skip(i));
    }
}

/// Parsing the canonical registry text of well-formed records returns
/// exactly those records: the parser inverts the serializer, so a parse
/// followed by a re-serialization loses none of the record fields.
#[verifier::rlimit(100)]
pub proof fn lemma_registry_roundtrip(ms: Seq<DeviceModel>)
    requires
        forall|k: int| 0 <= k < ms.len() ==> wf_device(#[trigger] ms[k]),
    ensures
        spec_parse_registry(ser_registry(ms)) == Ok::<Seq<DeviceModel>, RegistryError>(ms),
{
    let blocks = ms.map_values(|m: DeviceModel| ser_device(m));
    if ms.len() == 0 {
        assert(blocks.len() == 0);
        assert(ser_registry(ms) == Seq::<u8>::empty());
        let sb = split_blank(Seq::<u8>::empty());
        assert(sb == seq![Seq::<u8>::empty()]);
        assert(sb[0].len() == 0);
        assert(spec_parse_registry_blocks(sb, 1) == Ok::<Seq<DeviceModel>, RegistryError>(
            Seq::<DeviceModel>::empty(),
        ));
        assert(ms =~~= Seq::<DeviceModel>::empty());
    } else {
        assert forall|k: int| 0 <= k < blocks.len() implies crate::bytes::blank_free(
            #[trigger] blocks[k],
        ) && (blocks[k].len() > 0 ==> blocks[k].last() != NL) by {
            assert(blocks[k] == ser_device(ms[k]));
            lemma_ser_lines_wf(ms[k]);
            crate::bytes::lemma_join_lines_blank_free(ser_device_lines(ms[k]));
        }
        crate::bytes::lemma_split_join_blank(blocks);
        lemma_parse_ser_blocks(ms, 0);
        assert(ms.skip(0) =~~= ms);
    }
}

/// A device name matches a pattern list exactly when every pattern occurs
/// in the name as a contiguous substring.  The patterns' order plays no
/// part: see `lemma_matches_order_insensitive`.
pub open spec fn spec_matches(name: Seq<u8>, pats: Seq<Seq<u8>>) -> bool {
    forall|j: int| 0 <= j < pats.len() ==> contains_sub(name, #[trigger] pats[j])
}

/// Two pattern lists holding the same patterns match the same names,
/// whatever their order or repetition (law).
pub proof fn lemma_matches_order_insensitive(name: Seq<u8>, ps1: Seq<Seq<u8>>, ps2: Seq<Seq<u8>>)
    requires
        ps1.to_set() == ps2.to_set(),
    ensures
        spec_matches(name, ps1) == spec_matches(name, ps2),
{
    assert forall|a: Seq<Seq<u8>>, b: Seq<Seq<u8>>|
        a.to_set() == b.to_set() && spec_matches(name, a) implies spec_matches(name, b) by {
        assert forall|j: int| 0 <= j < b.len() implies contains_sub(name, #[trigger] b[j]) by {
            assert(b.to_set().contains(b[j]));
            assert(a.to_set().contains(b[j]));
            let k = choose|k: int| 0 <= k < a.len() && a[k] == b[j];
            assert(contains_sub(name, a[k]));
        }
    }
}

/// Whether the device's name carries every pattern as a substring.
pub fn device_matches(d: &InputDevice, pats: &Vec<Vec<u8>>) -> (r: bool)
    ensures
        r == spec_matches(d@.n, pats.deep_view()),
{
    let n = pats.len();
    let mut j: usize = 0;
    while j < n
        invariant
            n == pats@.len(),
            0 <= j <= n,
            forall|k: int| 0 <= k < j ==> contains_sub(d@.n, #[trigger] pats.deep_view()[k]),
        decreases n - j,
    {
        proof {
            assert(pats@[j as int]@ =~= pats.deep_view()[j as int]);
        }
        if !contains_bytes(d.n.as_slice(), pats[j].as_slice()) {
            assert(!spec_matches(d@.n, pats.deep_view()));
            return false;
        }
        j += 1;
    }
    true
}

/// The indices below `n` of the devices whose name matches the patterns, in
/// ascending order.
pub open spec fn spec_filter(devs: Seq<DeviceModel>, pats: Seq<Seq<u8>>, n: int) -> Seq<usize>
    decreases n,
{
    if n <= 0 {
        Seq::<usize>::empty()
    } else {
        let rest = spec_filter(devs, pats, n - 1);
        if spec_matches(devs[n - 1].n, pats) {
            rest.push((n - 1) as usize)
        } else {
            rest
        }
    }
}

/// What an index sequence from `spec_filter` looks like: within bounds,
/// strictly ascending, and holding exactly the matching indices.
pub proof fn lemma_spec_filter(devs: Seq<DeviceModel>, pats: Seq<Seq<u8>>, n: int)
    requires
        0 <= n <= devs.len(),
        devs.len() <= usize::MAX,
    ensures
        forall|t: int|
            0 <= t < spec_filter(devs, pats, n).len() ==> 0 <= #[trigger] spec_filter(
                devs,
                pats,
                n,
            )[t] < n,
        forall|t: int, u: int|
            0 <= t < u < spec_filter(devs, pats, n).len() ==> spec_filter(devs, pats, n)[t]
                < spec_filter(devs, pats, n)[u],
        forall|i: int|
            0 <= i < n ==> (spec_filter(devs, pats, n).contains(i as usize) <==> spec_matches(
                devs[i].n,
                pats,
            )),
    decreases n,
{
    if n > 0 {
        lemma_spec_filter(devs, pats, n - 1);
        let rest = spec_filter(devs, pats, n - 1);
        let whole = spec_filter(devs, pats, n);
        assert forall|i: int|
            0 <= i < n implies (whole.contains(i as usize) <==> spec_matches(devs[i].n, pats)) by {
            if i < n - 1 {
                if rest.contains(i as usize) {
                    let t = choose|t: int| 0 <= t < rest.len() && rest[t] == i as usize;
                    assert(whole[t] == i as usize);
                    assert(whole.contains(i as usize));
                }
                if whole.contains(i as usize) {
                    let t = choose|t: int| 0 <= t < whole.len() && whole[t] == i as usize;
                    assert(t < rest.len());
                    assert(rest.contains(i as usize));
                }
            } else {
                if spec_matches(devs[i].n, pats) {
                    assert(whole[whole.len() - 1] == i as usize);
                    assert(whole.contains(i as usize));
                }
            }
        }
    }
}

impl InputDevice {
    /// The device's display name.
    pub fn name(&self) -> (r: &Vec<u8>)
        ensures
            r@ == self@.n,
    {
        &self.n
    }

    /// The first handler token that names a readable event node, if any.
    pub fn event(&self) -> (r: Option<&Vec<u8>>)
        ensures
            match r {
                Some(h) => spec_first_event(self@.h) == Some(h@),
                None => spec_first_event(self@.h) == None::<Seq<u8>>,
            },
    {
        let tok = crate::text::t_event_v();
        let n = self.h.len();
        let mut j: usize = 0;
        proof {
            assert(self@.h.skip(0) =~= self@.h);
        }
        while j < n
            invariant
                n == self.h@.len(),
                0 <= j <= n,
                tok@ == crate::text::t_event(),
                spec_first_event(self@.h) == spec_first_event(self@.h.skip(j as int)),
            decreases n - j,
        {
            proof {
                assert(self@.h.skip(j as int)[0] == self@.h[j as int]);
                assert(self.h@[j as int]@ =~= self@.h[j as int]);
                assert(self@.h.skip(j as int).skip(1) =~= self@.h.skip(j + 1));
            }
            if contains_bytes(self.h[j].as_slice(), tok.as_slice()) {
                return Some(&self.h[j]);
            }
            j += 1;
        }
        proof {
            assert(self@.h.skip(n as int) =~= Seq::<Seq<u8>>::empty());
        }
        None
    }
}

/// The first handler token containing the event-node name, if any.
pub open spec fn spec_first_event(h: Seq<Seq<u8>>) -> Option<Seq<u8>>
    decreases h.len(),
{
    if h.len() == 0 {
        None
    } else if contains_sub(h[0], crate::text::t_event()) {
        Some(h[0])
    } else {
        spec_first_event(h.skip(1))
    }
}

/// The indices of the devices whose name carries every pattern, in
/// ascending order; the pool itself is untouched.
pub fn filter_devices(devices: &Vec<InputDevice>, pat: &Vec<Vec<u8>>) -> (r: Vec<usize>)
    ensures
        r@ == spec_filter(devices.deep_view(), pat.deep_view(), devices@.len() as int),
{
    let ghost ddv = devices.deep_view();
    let n = devices.len();
    let mut r: Vec<usize> = Vec::new();
    let mut i: usize = 0;
    proof {
        assert(r@ =~= spec_filter(ddv, pat.deep_view(), 0));
    }
    while i < n
        invariant
            n == devices@.len(),
            ddv == devices.deep_view(),
            0 <= i <= n,
            r@ == spec_filter(ddv, pat.deep_view(), i as int),
        decreases n - i,
    {
        proof {
            assert(devices@[i as int]@ == ddv[i as int]);
        }
        if device_matches(&devices[i], pat) {
            r.push(i);
        }
        i += 1;
    }
    r
}

/// Reads a base-16 payload as a 64-bit mask, as the bitmap lines do.
pub fn hex_decode(value: &[u8]) -> (r: Result<u64, RegistryError>)
    ensures
        match r {
            Ok(v) => spec_parse_hex64(value@) == Some(v),
            Err(e) => spec_parse_hex64(value@) == None::<u64> && e == RegistryError::BadPayload,
        },
{
    match parse_hex_u64(value) {
        Some(v) => Ok(v),
        None => Err(RegistryError::BadPayload),
    }
}

} // verus!
