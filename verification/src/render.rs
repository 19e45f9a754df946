//! Rendering and the per-record decisions of a logging worker.
//!
//! A worker reads fixed-size records from its device stream and writes one
//! line per record to its sink, either the raw bytes or the decoded record,
//! prefixed with a capture timestamp the caller supplies.  A short read
//! ends the worker; so does a record whose type or code falls outside the
//! closed symbolic tables.  Which sink a worker opens, and how, is decided
//! here too; the opening itself is the caller's.

use vstd::prelude::*;
use vstd::utf8::encode_utf8;

use crate::actions::BindOptions;
use crate::actions::OptionsModel;
use crate::bytes::push_all;
use crate::codes::code_name;
use crate::codes::is_known_code;
use crate::codes::spec_code_name;
use crate::event::RECORD_SIZE;
use crate::event::input_event;
use crate::event::spec_event;
use crate::numbers::dec_i32_bytes;
use crate::numbers::dec_u32_bytes;
use crate::numbers::dec_u8_bytes;
use crate::numbers::ser_dec_i32;
use crate::numbers::ser_dec_u32;
use crate::numbers::ser_dec_u8;
use crate::text::r_close;
use crate::text::r_close_v;
use crate::text::r_code;
use crate::text::r_code_v;
use crate::text::r_comma;
use crate::text::r_comma_v;
use crate::text::r_ev_head;
use crate::text::r_ev_head_v;
use crate::text::r_mid;
use crate::text::r_mid_v;
use crate::text::r_open;
use crate::text::r_open_v;
use crate::text::r_rbrk;
use crate::text::r_rbrk_v;
use crate::text::r_tail;
use crate::text::r_tail_v;
use crate::text::r_type;
use crate::text::r_type_v;
use crate::text::r_usec;
use crate::text::r_usec_v;
use crate::text::r_value;
use crate::text::r_value_v;
use crate::text::t_logs;
use crate::text::t_logs_v;
use crate::types::is_known_type;
use crate::types::lookup_type;
use crate::types::spec_type_name;

verus! {

/// A record that cannot be rendered symbolically.
#[derive(Clone, Copy, Debug, PartialEq, Eq, Structural)]
pub enum DecodeError {
    /// The record's type value falls outside the closed type table.
    UnknownType,
    /// The record's code value falls outside the code table.
    UnknownCode,
}

/// The decimal renderings of the first `k` record bytes, comma-separated.
pub open spec fn spec_render_bytes(b: Seq<u8>, k: int) -> Seq<u8>
    decreases k,
{
    if k <= 0 {
        Seq::<u8>::empty()
    } else if k == 1 {
        ser_dec_u8(b[0])
    } else {
        spec_render_bytes(b, k - 1) + r_comma() + ser_dec_u8(b[k - 1])
    }
}

/// One raw line: the timestamp, then the record's bytes in decimal.
pub open spec fn spec_raw_line(ts: Seq<u8>, buf: Seq<u8>) -> Seq<u8> {
    r_open() + ts + r_mid() + r_open() + spec_render_bytes(buf, buf.len() as int) + r_rbrk()
        + r_close()
}

/// The decoded record's rendering: its timestamp fields in decimal, its
/// type and code as their symbolic names, its value in decimal.
pub open spec fn spec_event_body(e: input_event) -> Seq<u8> {
    r_ev_head() + ser_dec_i32(e.time.tv_sec) + r_usec() + ser_dec_u32(e.time.tv_usec) + r_type()
        + encode_utf8(spec_type_name(e.type_)) + r_code() + encode_utf8(spec_code_name(e.code))
        + r_value() + ser_dec_i32(e.value) + r_tail()
}

/// One decoded line: the timestamp, then the decoded record.
pub open spec fn spec_decoded_line(ts: Seq<u8>, e: input_event) -> Seq<u8> {
    r_open() + ts + r_mid() + spec_event_body(e) + r_close()
}

/// Renders one record raw, from a slice known to hold a whole record.
fn render_raw(buf: &[u8], ts: &[u8]) -> (r: Vec<u8>)
    requires
        buf@.len() == RECORD_SIZE,
    ensures
        r@ == spec_raw_line(ts@, buf@),
{
    let mut r = r_open_v();
    push_all(&mut r, ts);
    let mid = r_mid_v();
    push_all(&mut r, mid.as_slice());
    let open2 = r_open_v();
    push_all(&mut r, open2.as_slice());
    let ghost before = r@;
    let comma = r_comma_v();
    let n = buf.len();
    let mut k: usize = 0;
    while k < n
        invariant
            n == buf@.len(),
            comma@ == r_comma(),
            0 <= k <= n,
            r@ == before + spec_render_bytes(buf@, k as int),
        decreases n - k,
    {
        if k > 0 {
            push_all(&mut r, comma.as_slice());
        }
        let d = dec_u8_bytes(buf[k]);
        push_all(&mut r, d.as_slice());
        proof {
            if k == 0 {
                assert(before + Seq::<u8>::empty() =~= before);
                assert(before + spec_render_bytes(buf@, 1) =~= before + ser_dec_u8(buf@[0]));
            } else {
                assert(before + spec_render_bytes(buf@, k + 1) =~= before + spec_render_bytes(
                    buf@,
                    k as int,
                ) + r_comma() + ser_dec_u8(buf@[k as int]));
            }
        }
        k += 1;
    }
    let rb = r_rbrk_v();
    push_all(&mut r, rb.as_slice());
    let cl = r_close_v();
    push_all(&mut r, cl.as_slice());
    proof {
        assert(r@ =~= spec_raw_line(ts@, buf@));
    }
    r
}

/// Renders one record decoded, from a slice known to hold a whole record;
/// nothing is rendered for a type or code outside the closed tables.
fn render_decoded(buf: &[u8], ts: &[u8]) -> (r: Result<Vec<u8>, DecodeError>)
    requires
        buf@.len() == RECORD_SIZE,
    ensures
        match r {
            Ok(line) => is_known_type(spec_event(buf@).type_) && is_known_code(
                spec_event(buf@).code,
            ) && line@ == spec_decoded_line(ts@, spec_event(buf@)),
            Err(DecodeError::UnknownType) => !is_known_type(spec_event(buf@).type_),
            Err(DecodeError::UnknownCode) => is_known_type(spec_event(buf@).type_)
                && !is_known_code(spec_event(buf@).code),
        },
{
    let mut rec = [0u8; 24];
    let mut j: usize = 0;
    while j < 24
        invariant
            0 <= j <= 24,
            buf@.len() == 24,
            rec@.len() == 24,
            forall|k: int| 0 <= k < j ==> rec@[k] == buf@[k],
        decreases 24 - j,
    {
        rec[j] = buf[j];
        j += 1;
    }
    proof {
        assert(rec@ =~= buf@);
    }
    let e = input_event::from_bytes(&rec);
    let tn = match lookup_type(e.type_) {
        None => {
            return Err(DecodeError::UnknownType);
        },
        Some(tn) => tn,
    };
    let cn = match code_name(e.code) {
        None => {
            return Err(DecodeError::UnknownCode);
        },
        Some(cn) => cn,
    };
    let mut r = r_open_v();
    push_all(&mut r, ts);
    let mid = r_mid_v();
    push_all(&mut r, mid.as_slice());
    let head = r_ev_head_v();
    push_all(&mut r, head.as_slice());
    let sec = dec_i32_bytes(e.time.tv_sec);
    push_all(&mut r, sec.as_slice());
    let us = r_usec_v();
    push_all(&mut r, us.as_slice());
    let usec = dec_u32_bytes(e.time.tv_usec);
    push_all(&mut r, usec.as_slice());
    let ty = r_type_v();
    push_all(&mut r, ty.as_slice());
    push_all(&mut r, tn.as_bytes());
    let co = r_code_v();
    push_all(&mut r, co.as_slice());
    push_all(&mut r, cn.as_bytes());
    let va = r_value_v();
    push_all(&mut r, va.as_slice());
    let val = dec_i32_bytes(e.value);
    push_all(&mut r, val.as_slice());
    let tl = r_tail_v();
    push_all(&mut r, tl.as_slice());
    let cl = r_close_v();
    push_all(&mut r, cl.as_slice());
    proof {
        assert(r@ =~= spec_decoded_line(ts@, spec_event(buf@)));
    }
    Ok(r)
}

/// Renders one record as its raw byte representation, prefixed with the
/// caller's capture timestamp.
pub fn parse_bytes(buf: &[u8; 24], ts: &[u8]) -> (r: Vec<u8>)
    ensures
        r@ == spec_raw_line(ts@, buf@),
{
    render_raw(buf.as_slice(), ts)
}

/// Renders one record decoded, prefixed with the caller's capture
/// timestamp; fails on a type or code outside the closed tables.
pub fn parse_event(buf: &[u8; 24], ts: &[u8]) -> (r: Result<Vec<u8>, DecodeError>)
    ensures
        match r {
            Ok(line) => is_known_type(spec_event(buf@).type_) && is_known_code(
                spec_event(buf@).code,
            ) && line@ == spec_decoded_line(ts@, spec_event(buf@)),
            Err(DecodeError::UnknownType) => !is_known_type(spec_event(buf@).type_),
            Err(DecodeError::UnknownCode) => is_known_type(spec_event(buf@).type_)
                && !is_known_code(spec_event(buf@).code),
        },
{
    render_decoded(buf.as_slice(), ts)
}

/// Renders one record raw or decoded, per the worker's flag.
pub fn parse(buf: &[u8; 24], raw: bool, ts: &[u8]) -> (r: Result<Vec<u8>, DecodeError>)
    ensures
        match r {
            Ok(line) => if raw {
                line@ == spec_raw_line(ts@, buf@)
            } else {
                is_known_type(spec_event(buf@).type_) && is_known_code(spec_event(buf@).code)
                    && line@ == spec_decoded_line(ts@, spec_event(buf@))
            },
            Err(DecodeError::UnknownType) => !raw && !is_known_type(spec_event(buf@).type_),
            Err(DecodeError::UnknownCode) => !raw && is_known_type(spec_event(buf@).type_)
                && !is_known_code(spec_event(buf@).code),
        },
{
    if raw {
        Ok(parse_bytes(buf, ts))
    } else {
        parse_event(buf, ts)
    }
}

/// Why a worker stopped.
#[derive(Clone, Copy, Debug, PartialEq, Eq, Structural)]
pub enum WorkerExit {
    /// A read returned fewer bytes than one record: the stream has ended
    /// or the device has vanished.
    ShortRead,
    /// The current record cannot be rendered symbolically.
    BadRecord(DecodeError),
}

/// What a worker does after one read.
#[derive(Debug)]
pub enum WorkerStep {
    /// Write this line to the sink and poll again.
    Emit(Vec<u8>),
    /// Terminate; sibling workers are unaffected.
    Stop(WorkerExit),
}

/// The decision after one read of up to `RECORD_SIZE` bytes into `buf`: a
/// short read stops the worker; otherwise the record is rendered per the
/// worker's raw flag, and a record outside the symbolic tables stops a
/// decoding worker.
pub fn worker_step(n_read: usize, buf: &[u8; 24], raw: bool, ts: &[u8]) -> (r: WorkerStep)
    ensures
        match r {
            WorkerStep::Emit(line) => n_read >= RECORD_SIZE && if raw {
                line@ == spec_raw_line(ts@, buf@)
            } else {
                is_known_type(spec_event(buf@).type_) && is_known_code(spec_event(buf@).code)
                    && line@ == spec_decoded_line(ts@, spec_event(buf@))
            },
            WorkerStep::Stop(WorkerExit::ShortRead) => n_read < RECORD_SIZE,
            WorkerStep::Stop(WorkerExit::BadRecord(DecodeError::UnknownType)) => n_read
                >= RECORD_SIZE && !raw && !is_known_type(spec_event(buf@).type_),
            WorkerStep::Stop(WorkerExit::BadRecord(DecodeError::UnknownCode)) => n_read
                >= RECORD_SIZE && !raw && is_known_type(spec_event(buf@).type_) && !is_known_code(
                spec_event(buf@).code,
            ),
        },
{
    if n_read < RECORD_SIZE {
        return WorkerStep::Stop(WorkerExit::ShortRead);
    }
    match parse(buf, raw, ts) {
        Ok(line) => WorkerStep::Emit(line),
        Err(e) => WorkerStep::Stop(WorkerExit::BadRecord(e)),
    }
}

/// The lines a worker emits from a finite stream, and why it stops:
/// records are taken in order from the front; the trailing short remainder
/// (or empty end) stops it, as does an undecodable record when decoding.
pub open spec fn spec_worker_run(stream: Seq<u8>, raw: bool, ts: Seq<u8>) -> (
    Seq<Seq<u8>>,
    WorkerExit,
)
    decreases stream.len(),
{
    if stream.len() < RECORD_SIZE {
        (Seq::<Seq<u8>>::empty(), WorkerExit::ShortRead)
    } else {
        let rec = stream.take(RECORD_SIZE as int);
        if raw {
            let r = spec_worker_run(stream.skip(RECORD_SIZE as int), raw, ts);
            (seq![spec_raw_line(ts, rec)] + r.0, r.1)
        } else {
            let ev = spec_event(rec);
            if !is_known_type(ev.type_) {
                (Seq::<Seq<u8>>::empty(), WorkerExit::BadRecord(DecodeError::UnknownType))
            } else if !is_known_code(ev.code) {
                (Seq::<Seq<u8>>::empty(), WorkerExit::BadRecord(DecodeError::UnknownCode))
            } else {
                let r = spec_worker_run(stream.skip(RECORD_SIZE as int), raw, ts);
                (seq![spec_decoded_line(ts, ev)] + r.0, r.1)
            }
        }
    }
}

/// Replays a worker over a finite stream: the emitted lines in read order,
/// and the exit.  A worker's output is a function of its own stream alone,
/// so one stream's fault cannot touch a sibling's replay.
#[verifier::loop_isolation(false)]
pub fn worker_run(stream: &[u8], raw: bool, ts: &[u8]) -> (r: (Vec<Vec<u8>>, WorkerExit))
    ensures
        r.0.deep_view() == spec_worker_run(stream@, raw, ts@).0,
        r.1 == spec_worker_run(stream@, raw, ts@).1,
{
    let n = stream.len();
    let mut lines: Vec<Vec<u8>> = Vec::new();
    let mut i: usize = 0;
    proof {
        assert(stream@.skip(0) =~= stream@);
        assert(lines.deep_view() =~~= Seq::<Seq<u8>>::empty());
    }
    while n - i >= RECORD_SIZE
        invariant
            0 <= i <= n,
            spec_worker_run(stream@, raw, ts@).0 == lines.deep_view() + spec_worker_run(
                stream@.skip(i as int),
                raw,
                ts@,
            ).0,
            spec_worker_run(stream@, raw, ts@).1 == spec_worker_run(
                stream@.skip(i as int),
                raw,
                ts@,
            ).1,
        decreases n - i,
    {
        let ghost tail = stream@.skip(i as int);
        proof {
            assert(tail.len() >= RECORD_SIZE);
            assert(tail.take(RECORD_SIZE as int) =~= stream@.subrange(i as int, i + RECORD_SIZE));
            assert(tail.skip(RECORD_SIZE as int) =~= stream@.skip(i + RECORD_SIZE));
        }
        let rec = vstd::slice::slice_subrange(stream, i, i + RECORD_SIZE);
        let line = match parse_slice(rec, raw, ts) {
            Ok(line) => line,
            Err(e) => {
                return (lines, WorkerExit::BadRecord(e));
            },
        };
        let ghost lv = line@;
        let ghost old_lines = lines.deep_view();
        lines.push(line);
        proof {
            assert(lines.deep_view() =~~= old_lines.push(lv));
            assert(old_lines.push(lv) =~~= old_lines + seq![lv]);
            assert((old_lines + seq![lv]) + spec_worker_run(stream@.skip(i + RECORD_SIZE), raw, ts@).0
                =~~= old_lines + (seq![lv] + spec_worker_run(
                stream@.skip(i + RECORD_SIZE),
                raw,
                ts@,
            ).0));
        }
        i += RECORD_SIZE;
    }
    proof {
        assert(stream@.skip(i as int).len() < RECORD_SIZE);
        assert(lines.deep_view() + Seq::<Seq<u8>>::empty() =~~= lines.deep_view());
    }
    (lines, WorkerExit::ShortRead)
}

/// As `parse`, for a slice known to hold a whole record.
fn parse_slice(buf: &[u8], raw: bool, ts: &[u8]) -> (r: Result<Vec<u8>, DecodeError>)
    requires
        buf@.len() == RECORD_SIZE,
    ensures
        match r {
            Ok(line) => if raw {
                line@ == spec_raw_line(ts@, buf@)
            } else {
                is_known_type(spec_event(buf@).type_) && is_known_code(spec_event(buf@).code)
                    && line@ == spec_decoded_line(ts@, spec_event(buf@))
            },
            Err(DecodeError::UnknownType) => !raw && !is_known_type(spec_event(buf@).type_),
            Err(DecodeError::UnknownCode) => !raw && is_known_type(spec_event(buf@).type_)
                && !is_known_code(spec_event(buf@).code),
        },
{
    if raw {
        Ok(render_raw(buf, ts))
    } else {
        render_decoded(buf, ts)
    }
}

/// Where a worker writes, per its group's options: the terminal, or a log
/// file under the logs directory.
#[derive(Debug)]
pub enum SinkPlan {
    /// The process's standard output.
    Terminal,
    /// A log file: its path, and whether to truncate what is there.  A
    /// plan that does not truncate appends.
    File { path: Vec<u8>, truncate: bool },
}

/// The mathematical value of `SinkPlan`.
pub enum SinkModel {
    Terminal,
    File { path: Seq<u8>, truncate: bool },
}

impl View for SinkPlan {
    type V = SinkModel;

    open spec fn view(&self) -> SinkModel {
        match self {
            SinkPlan::Terminal => SinkModel::Terminal,
            SinkPlan::File { path, truncate } => SinkModel::File {
                path: path@,
                truncate: *truncate,
            },
        }
    }
}

/// The sink the options choose.  Terminal output, or a missing path, means
/// the terminal; a date-stamped file takes the date between the logs
/// directory and the path and always appends; otherwise the overwrite flag
/// decides between truncating and appending.
pub open spec fn spec_sink_plan(o: OptionsModel, date: Seq<u8>) -> SinkModel {
    if o.stdout {
        SinkModel::Terminal
    } else {
        match o.path {
            None => SinkModel::Terminal,
            Some(p) => if o.with_date {
                SinkModel::File { path: t_logs() + date + p, truncate: false }
            } else {
                SinkModel::File { path: t_logs() + p, truncate: o.overwrite }
            },
        }
    }
}

/// Chooses the worker's sink from its group's options; `date` is the
/// caller's date stamp, used only in date-stamped mode.
pub fn sink_plan(o: &BindOptions, date: &[u8]) -> (r: SinkPlan)
    ensures
        r@ == spec_sink_plan(o@, date@),
{
    if o.stdout {
        return SinkPlan::Terminal;
    }
    match &o.path {
        None => SinkPlan::Terminal,
        Some(p) => {
            proof {
                assert(p.deep_view() =~= p@);
            }
            let mut path = t_logs_v();
            if o.with_date {
                push_all(&mut path, date);
                push_all(&mut path, p.as_slice());
                proof {
                    assert(path@ =~= t_logs() + date@ + p@);
                }
                SinkPlan::File { path, truncate: false }
            } else {
                push_all(&mut path, p.as_slice());
                proof {
                    assert(path@ =~= t_logs() + p@);
                }
                SinkPlan::File { path, truncate: o.overwrite }
            }
        },
    }
}

} // verus!
