//! The action compiler: it classifies the invocation's tokens into
//! independent action groups, each a query or a bind with its own option
//! record and pattern list.
//!
//! Two verbs open groups; a verb met inside a group's token run closes the
//! group and opens the next one, so a single invocation compiles to a flat
//! list of groups in declaration order.  Flags inside a bind run rewrite the
//! group's options, later flags overwriting earlier conflicting ones; a
//! log-file flag takes the following token as its path.  A token that looks
//! like a flag but is not recognized is a fatal error, and so is a log-file
//! flag with no path after it; every other token joins the group's pattern
//! list.

use vstd::prelude::*;

use crate::bytes::bytes_eq;

verus! {

/// The dash byte that opens a flag token.
pub const DASH: u8 = 45;

/// The token `-q`.
pub open spec fn f_q() -> Seq<u8> {
    seq![45u8, 113u8]
}

/// The bytes of `f_q`, for executable code.
pub fn f_q_v() -> (r: Vec<u8>)
    ensures
        r@ == f_q(),
{
    let mut r: Vec<u8> = Vec::new();
    r.push(45);
    r.push(113);
    proof {
        assert(r@ =~= f_q());
    }
    r
}

/// The token `--query`.
pub open spec fn f_query() -> Seq<u8> {
    seq![45u8, 45u8, 113u8, 117u8, 101u8, 114u8, 121u8]
}

/// The bytes of `f_query`, for executable code.
pub fn f_query_v() -> (r: Vec<u8>)
    ensures
        r@ == f_query(),
{
    let mut r: Vec<u8> = Vec::new();
    r.push(45);
    r.push(45);
    r.push(113);
    r.push(117);
    r.push(101);
    r.push(114);
    r.push(121);
    proof {
        assert(r@ =~= f_query());
    }
    r
}

/// The token `-b`.
pub open spec fn f_b() -> Seq<u8> {
    seq![45u8, 98u8]
}

/// The bytes of `f_b`, for executable code.
pub fn f_b_v() -> (r: Vec<u8>)
    ensures
        r@ == f_b(),
{
    let mut r: Vec<u8> = Vec::new();
    r.push(45);
    r.push(98);
    proof {
        assert(r@ =~= f_b());
    }
    r
}

/// The token `--bind`.
pub open spec fn f_bind() -> Seq<u8> {
    seq![45u8, 45u8, 98u8, 105u8, 110u8, 100u8]
}

/// The bytes of `f_bind`, for executable code.
pub fn f_bind_v() -> (r: Vec<u8>)
    ensures
        r@ == f_bind(),
{
    let mut r: Vec<u8> = Vec::new();
    r.push(45);
    r.push(45);
    r.push(98);
    r.push(105);
    r.push(110);
    r.push(100);
    proof {
        assert(r@ =~= f_bind());
    }
    r
}

/// The token `-h`.
pub open spec fn f_h() -> Seq<u8> {
    seq![45u8, 104u8]
}

/// The bytes of `f_h`, for executable code.
pub fn f_h_v() -> (r: Vec<u8>)
    ensures
        r@ == f_h(),
{
    let mut r: Vec<u8> = Vec::new();
    r.push(45);
    r.push(104);
    proof {
        assert(r@ =~= f_h());
    }
    r
}

/// The token `--help`.
pub open spec fn f_help() -> Seq<u8> {
    seq![45u8, 45u8, 104u8, 101u8, 108u8, 112u8]
}

/// The bytes of `f_help`, for executable code.
pub fn f_help_v() -> (r: Vec<u8>)
    ensures
        r@ == f_help(),
{
    let mut r: Vec<u8> = Vec::new();
    r.push(45);
    r.push(45);
    r.push(104);
    r.push(101);
    r.push(108);
    r.push(112);
    proof {
        assert(r@ =~= f_help());
    }
    r
}

/// The token `-e`.
pub open spec fn f_e() -> Seq<u8> {
    seq![45u8, 101u8]
}

/// The bytes of `f_e`, for executable code.
pub fn f_e_v() -> (r: Vec<u8>)
    ensures
        r@ == f_e(),
{
    let mut r: Vec<u8> = Vec::new();
    r.push(45);
    r.push(101);
    proof {
        assert(r@ =~= f_e());
    }
    r
}

/// The token `--event`.
pub open spec fn f_event() -> Seq<u8> {
    seq![45u8, 45u8, 101u8, 118u8, 101u8, 110u8, 116u8]
}

/// The bytes of `f_event`, for executable code.
pub fn f_event_v() -> (r: Vec<u8>)
    ensures
        r@ == f_event(),
{
    let mut r: Vec<u8> = Vec::new();
    r.push(45);
    r.push(45);
    r.push(101);
    r.push(118);
    r.push(101);
    r.push(110);
    r.push(116);
    proof {
        assert(r@ =~= f_event());
    }
    r
}

/// The token `-r`.
pub open spec fn f_r() -> Seq<u8> {
    seq![45u8, 114u8]
}

/// The bytes of `f_r`, for executable code.
pub fn f_r_v() -> (r: Vec<u8>)
    ensures
        r@ == f_r(),
{
    let mut r: Vec<u8> = Vec::new();
    r.push(45);
    r.push(114);
    proof {
        assert(r@ =~= f_r());
    }
    r
}

/// The token `--raw`.
pub open spec fn f_raw() -> Seq<u8> {
    seq![45u8, 45u8, 114u8, 97u8, 119u8]
}

/// The bytes of `f_raw`, for executable code.
pub fn f_raw_v() -> (r: Vec<u8>)
    ensures
        r@ == f_raw(),
{
    let mut r: Vec<u8> = Vec::new();
    r.push(45);
    r.push(45);
    r.push(114);
    r.push(97);
    r.push(119);
    proof {
        assert(r@ =~= f_raw());
    }
    r
}

/// The token `-d`.
pub open spec fn f_d() -> Seq<u8> {
    seq![45u8, 100u8]
}

/// The bytes of `f_d`, for executable code.
pub fn f_d_v() -> (r: Vec<u8>)
    ensures
        r@ == f_d(),
{
    let mut r: Vec<u8> = Vec::new();
    r.push(45);
    r.push(100);
    proof {
        assert(r@ =~= f_d());
    }
    r
}

/// The token `--decoded`.
pub open spec fn f_decoded() -> Seq<u8> {
    seq![45u8, 45u8, 100u8, 101u8, 99u8, 111u8, 100u8, 101u8, 100u8]
}

/// The bytes of `f_decoded`, for executable code.
pub fn f_decoded_v() -> (r: Vec<u8>)
    ensures
        r@ == f_decoded(),
{
    let mut r: Vec<u8> = Vec::new();
    r.push(45);
    r.push(45);
    r.push(100);
    r.push(101);
    r.push(99);
    r.push(111);
    r.push(100);
    r.push(101);
    r.push(100);
    proof {
        assert(r@ =~= f_decoded());
    }
    r
}

/// The token `-t`.
pub open spec fn f_t() -> Seq<u8> {
    seq![45u8, 116u8]
}

/// The bytes of `f_t`, for executable code.
pub fn f_t_v() -> (r: Vec<u8>)
    ensures
        r@ == f_t(),
{
    let mut r: Vec<u8> = Vec::new();
    r.push(45);
    r.push(116);
    proof {
        assert(r@ =~= f_t());
    }
    r
}

/// The token `--terminal`.
pub open spec fn f_terminal() -> Seq<u8> {
    seq![45u8, 45u8, 116u8, 101u8, 114u8, 109u8, 105u8, 110u8, 97u8, 108u8]
}

/// The bytes of `f_terminal`, for executable code.
pub fn f_terminal_v() -> (r: Vec<u8>)
    ensures
        r@ == f_terminal(),
{
    let mut r: Vec<u8> = Vec::new();
    r.push(45);
    r.push(45);
    r.push(116);
    r.push(101);
    r.push(114);
    r.push(109);
    r.push(105);
    r.push(110);
    r.push(97);
    r.push(108);
    proof {
        assert(r@ =~= f_terminal());
    }
    r
}

/// The token `-l`.
pub open spec fn f_l() -> Seq<u8> {
    seq![45u8, 108u8]
}

/// The bytes of `f_l`, for executable code.
pub fn f_l_v() -> (r: Vec<u8>)
    ensures
        r@ == f_l(),
{
    let mut r: Vec<u8> = Vec::new();
    r.push(45);
    r.push(108);
    proof {
        assert(r@ =~= f_l());
    }
    r
}

/// The token `--logfile`.
pub open spec fn f_logfile() -> Seq<u8> {
    seq![45u8, 45u8, 108u8, 111u8, 103u8, 102u8, 105u8, 108u8, 101u8]
}

/// The bytes of `f_logfile`, for executable code.
pub fn f_logfile_v() -> (r: Vec<u8>)
    ensures
        r@ == f_logfile(),
{
    let mut r: Vec<u8> = Vec::new();
    r.push(45);
    r.push(45);
    r.push(108);
    r.push(111);
    r.push(103);
    r.push(102);
    r.push(105);
    r.push(108);
    r.push(101);
    proof {
        assert(r@ =~= f_logfile());
    }
    r
}

/// The token `-lc`.
pub open spec fn f_lc() -> Seq<u8> {
    seq![45u8, 108u8, 99u8]
}

/// The bytes of `f_lc`, for executable code.
pub fn f_lc_v() -> (r: Vec<u8>)
    ensures
        r@ == f_lc(),
{
    let mut r: Vec<u8> = Vec::new();
    r.push(45);
    r.push(108);
    r.push(99);
    proof {
        assert(r@ =~= f_lc());
    }
    r
}

/// The token `--logfile-continue`.
pub open spec fn f_logfile_continue() -> Seq<u8> {
    seq![45u8, 45u8, 108u8, 111u8, 103u8, 102u8, 105u8, 108u8, 101u8, 45u8, 99u8, 111u8, 110u8, 116u8, 105u8, 110u8, 117u8, 101u8]
}

/// The bytes of `f_logfile_continue`, for executable code.
pub fn f_logfile_continue_v() -> (r: Vec<u8>)
    ensures
        r@ == f_logfile_continue(),
{
    let mut r: Vec<u8> = Vec::new();
    r.push(45);
    r.push(45);
    r.push(108);
    r.push(111);
    r.push(103);
    r.push(102);
    r.push(105);
    r.push(108);
    r.push(101);
    r.push(45);
    r.push(99);
    r.push(111);
    r.push(110);
    r.push(116);
    r.push(105);
    r.push(110);
    r.push(117);
    r.push(101);
    proof {
        assert(r@ =~= f_logfile_continue());
    }
    r
}

/// The token `-lo`.
pub open spec fn f_lo() -> Seq<u8> {
    seq![45u8, 108u8, 111u8]
}

/// The bytes of `f_lo`, for executable code.
pub fn f_lo_v() -> (r: Vec<u8>)
    ensures
        r@ == f_lo(),
{
    let mut r: Vec<u8> = Vec::new();
    r.push(45);
    r.push(108);
    r.push(111);
    proof {
        assert(r@ =~= f_lo());
    }
    r
}

/// The token `--logfile-overwrite`.
pub open spec fn f_logfile_overwrite() -> Seq<u8> {
    seq![45u8, 45u8, 108u8, 111u8, 103u8, 102u8, 105u8, 108u8, 101u8, 45u8, 111u8, 118u8, 101u8, 114u8, 119u8, 114u8, 105u8, 116u8, 101u8]
}

/// The bytes of `f_logfile_overwrite`, for executable code.
pub fn f_logfile_overwrite_v() -> (r: Vec<u8>)
    ensures
        r@ == f_logfile_overwrite(),
{
    let mut r: Vec<u8> = Vec::new();
    r.push(45);
    r.push(45);
    r.push(108);
    r.push(111);
    r.push(103);
    r.push(102);
    r.push(105);
    r.push(108);
    r.push(101);
    r.push(45);
    r.push(111);
    r.push(118);
    r.push(101);
    r.push(114);
    r.push(119);
    r.push(114);
    r.push(105);
    r.push(116);
    r.push(101);
    proof {
        assert(r@ =~= f_logfile_overwrite());
    }
    r
}

/// The token `-ld`.
pub open spec fn f_ld() -> Seq<u8> {
    seq![45u8, 108u8, 100u8]
}

/// The bytes of `f_ld`, for executable code.
pub fn f_ld_v() -> (r: Vec<u8>)
    ensures
        r@ == f_ld(),
{
    let mut r: Vec<u8> = Vec::new();
    r.push(45);
    r.push(108);
    r.push(100);
    proof {
        assert(r@ =~= f_ld());
    }
    r
}

/// The token `--logfile-with-date`.
pub open spec fn f_logfile_with_date() -> Seq<u8> {
    seq![45u8, 45u8, 108u8, 111u8, 103u8, 102u8, 105u8, 108u8, 101u8, 45u8, 119u8, 105u8, 116u8, 104u8, 45u8, 100u8, 97u8, 116u8, 101u8]
}

/// The bytes of `f_logfile_with_date`, for executable code.
pub fn f_logfile_with_date_v() -> (r: Vec<u8>)
    ensures
        r@ == f_logfile_with_date(),
{
    let mut r: Vec<u8> = Vec::new();
    r.push(45);
    r.push(45);
    r.push(108);
    r.push(111);
    r.push(103);
    r.push(102);
    r.push(105);
    r.push(108);
    r.push(101);
    r.push(45);
    r.push(119);
    r.push(105);
    r.push(116);
    r.push(104);
    r.push(45);
    r.push(100);
    r.push(97);
    r.push(116);
    r.push(101);
    proof {
        assert(r@ =~= f_logfile_with_date());
    }
    r
}
/// A fatal fault in the invocation's tokens.
#[derive(Clone, Copy, Debug, PartialEq, Eq, Structural)]
pub enum ArgError {
    /// A token beginning with a dash that no verb or flag spells.
    UnrecognizedToken,
    /// A log-file flag stood last, with no path token after it.
    MissingLogPath,
}

/// The option record of one bind group.
#[derive(Debug)]
pub struct BindOptions {
    /// Emit the raw bytes of each record rather than its decoded form.
    pub raw: bool,
    /// Write to the terminal rather than to a log file.
    pub stdout: bool,
    /// Truncate the log file rather than append to it.
    pub overwrite: bool,
    /// Prefix the log-file name with a date stamp (always appending).
    pub with_date: bool,
    /// The log-file path, when a log-file flag gave one.
    pub path: Option<Vec<u8>>,
}

/// What one group does with its matched devices.
#[derive(Debug)]
pub enum GroupKind {
    /// Report the matched records.
    Query,
    /// Read and log the matched devices' event streams.
    Bind(BindOptions),
}

/// One compiled unit of work: a kind and the name patterns that select its
/// devices.  A group with no patterns matches every device.
#[derive(Debug)]
pub struct ActionGroup {
    pub kind: GroupKind,
    pub pats: Vec<Vec<u8>>,
}

/// The compiled form of a whole invocation.
#[derive(Debug)]
pub enum Invocation {
    /// No tokens: print the raw registry text and exit.
    PrintRegistry,
    /// A lone help token: print usage and exit.
    Usage,
    /// Anything else: the compiled action groups, in declaration order.
    Groups(Vec<ActionGroup>),
}

/// The mathematical value of `BindOptions`.
#[verifier::ext_equal]
pub struct OptionsModel {
    pub raw: bool,
    pub stdout: bool,
    pub overwrite: bool,
    pub with_date: bool,
    pub path: Option<Seq<u8>>,
}

/// The mathematical value of `GroupKind`.
pub enum KindModel {
    Query,
    Bind(OptionsModel),
}

/// The mathematical value of `ActionGroup`.
#[verifier::ext_equal]
pub struct GroupModel {
    pub kind: KindModel,
    pub pats: Seq<Seq<u8>>,
}

/// The mathematical value of `Invocation`.
pub enum InvocationModel {
    PrintRegistry,
    Usage,
    Groups(Seq<GroupModel>),
}

impl View for BindOptions {
    type V = OptionsModel;

    open spec fn view(&self) -> OptionsModel {
        OptionsModel {
            raw: self.raw,
            stdout: self.stdout,
            overwrite: self.overwrite,
            with_date: self.with_date,
            path: self.path.deep_view(),
        }
    }
}

impl View for GroupKind {
    type V = KindModel;

    open spec fn view(&self) -> KindModel {
        match self {
            GroupKind::Query => KindModel::Query,
            GroupKind::Bind(o) => KindModel::Bind(o@),
        }
    }
}

impl View for ActionGroup {
    type V = GroupModel;

    open spec fn view(&self) -> GroupModel {
        GroupModel { kind: self.kind@, pats: self.pats.deep_view() }
    }
}

impl DeepView for ActionGroup {
    type V = GroupModel;

    open spec fn deep_view(&self) -> GroupModel {
        self.view()
    }
}

impl View for Invocation {
    type V = InvocationModel;

    open spec fn view(&self) -> InvocationModel {
        match self {
            Invocation::PrintRegistry => InvocationModel::PrintRegistry,
            Invocation::Usage => InvocationModel::Usage,
            Invocation::Groups(gs) => InvocationModel::Groups(gs.deep_view()),
        }
    }
}

/// Either spelling of the query verb.
pub open spec fn is_query_verb(t: Seq<u8>) -> bool {
    t == f_q() || t == f_query()
}

/// Either spelling of the bind verb.
pub open spec fn is_bind_verb(t: Seq<u8>) -> bool {
    t == f_b() || t == f_bind()
}

/// Either spelling of the help token.
pub open spec fn is_help(t: Seq<u8>) -> bool {
    t == f_h() || t == f_help()
}

/// A fresh bind group's options: raw bytes to the terminal.
pub open spec fn default_opts() -> OptionsModel {
    OptionsModel { raw: true, stdout: true, overwrite: false, with_date: false, path: None }
}

/// A fresh group of the given kind.
pub open spec fn fresh_group(kind: KindModel) -> GroupModel {
    GroupModel { kind, pats: Seq::<Seq<u8>>::empty() }
}

/// The token run from index `i` on, classified into groups: `cur` is the
/// group being gathered, `acc` the groups already closed.
pub open spec fn spec_compile_groups(
    toks: Seq<Seq<u8>>,
    i: int,
    cur: GroupModel,
    acc: Seq<GroupModel>,
) -> Result<Seq<GroupModel>, ArgError>
    decreases toks.len() - i,
{
    if i < 0 || i >= toks.len() {
        Ok(acc.push(cur))
    } else {
        let t = toks[i];
        if is_query_verb(t) {
            spec_compile_groups(toks, i + 1, fresh_group(KindModel::Query), acc.push(cur))
        } else if is_bind_verb(t) {
            spec_compile_groups(
                toks,
                i + 1,
                fresh_group(KindModel::Bind(default_opts())),
                acc.push(cur),
            )
        } else {
            match cur.kind {
                KindModel::Query => {
                    if t.len() > 0 && t[0] == DASH {
                        Err(ArgError::UnrecognizedToken)
                    } else {
                        spec_compile_groups(
                            toks,
                            i + 1,
                            GroupModel { pats: cur.pats.push(t), ..cur },
                            acc,
                        )
                    }
                },
                KindModel::Bind(o) => {
                    if t == f_e() || t == f_event() || t == f_d() || t == f_decoded() {
                        spec_compile_groups(
                            toks,
                            i + 1,
                            GroupModel {
                                kind: KindModel::Bind(OptionsModel { raw: false, ..o }),
                                ..cur
                            },
                            acc,
                        )
                    } else if t == f_r() || t == f_raw() {
                        spec_compile_groups(
                            toks,
                            i + 1,
                            GroupModel {
                                kind: KindModel::Bind(OptionsModel { raw: true, ..o }),
                                ..cur
                            },
                            acc,
                        )
                    } else if t == f_t() || t == f_terminal() {
                        spec_compile_groups(
                            toks,
                            i + 1,
                            GroupModel {
                                kind: KindModel::Bind(OptionsModel { stdout: true, ..o }),
                                ..cur
                            },
                            acc,
                        )
                    } else if t == f_l() || t == f_logfile() || t == f_lc()
                        || t == f_logfile_continue() {
                        if i + 1 >= toks.len() {
                            Err(ArgError::MissingLogPath)
                        } else {
                            spec_compile_groups(
                                toks,
                                i + 2,
                                GroupModel {
                                    kind: KindModel::Bind(
                                        OptionsModel {
                                            stdout: false,
                                            overwrite: false,
                                            with_date: false,
                                            path: Some(toks[i + 1]),
                                            ..o
                                        },
                                    ),
                                    ..cur
                                },
                                acc,
                            )
                        }
                    } else if t == f_lo() || t == f_logfile_overwrite() {
                        if i + 1 >= toks.len() {
                            Err(ArgError::MissingLogPath)
                        } else {
                            spec_compile_groups(
                                toks,
                                i + 2,
                                GroupModel {
                                    kind: KindModel::Bind(
                                        OptionsModel {
                                            stdout: false,
                                            overwrite: true,
                                            with_date: false,
                                            path: Some(toks[i + 1]),
                                            ..o
                                        },
                                    ),
                                    ..cur
                                },
                                acc,
                            )
                        }
                    } else if t == f_ld() || t == f_logfile_with_date() {
                        if i + 1 >= toks.len() {
                            Err(ArgError::MissingLogPath)
                        } else {
                            spec_compile_groups(
                                toks,
                                i + 2,
                                GroupModel {
                                    kind: KindModel::Bind(
                                        OptionsModel {
                                            stdout: false,
                                            overwrite: false,
                                            with_date: true,
                                            path: Some(toks[i + 1]),
                                            ..o
                                        },
                                    ),
                                    ..cur
                                },
                                acc,
                            )
                        }
                    } else if t.len() > 0 && t[0] == DASH {
                        Err(ArgError::UnrecognizedToken)
                    } else {
                        spec_compile_groups(
                            toks,
                            i + 1,
                            GroupModel { pats: cur.pats.push(t), ..cur },
                            acc,
                        )
                    }
                },
            }
        }
    }
}

/// What the whole token list compiles to.  No tokens print the registry; a
/// lone help token prints usage; otherwise the first token must be a verb
/// and the run is classified into groups.
pub open spec fn spec_compile(toks: Seq<Seq<u8>>) -> Result<InvocationModel, ArgError> {
    if toks.len() == 0 {
        Ok(InvocationModel::PrintRegistry)
    } else if toks.len() == 1 && is_help(toks[0]) {
        Ok(InvocationModel::Usage)
    } else if is_query_verb(toks[0]) {
        match spec_compile_groups(
            toks,
            1,
            fresh_group(KindModel::Query),
            Seq::<GroupModel>::empty(),
        ) {
            Ok(gs) => Ok(InvocationModel::Groups(gs)),
            Err(e) => Err(e),
        }
    } else if is_bind_verb(toks[0]) {
        match spec_compile_groups(
            toks,
            1,
            fresh_group(KindModel::Bind(default_opts())),
            Seq::<GroupModel>::empty(),
        ) {
            Ok(gs) => Ok(InvocationModel::Groups(gs)),
            Err(e) => Err(e),
        }
    } else {
        Err(ArgError::UnrecognizedToken)
    }
}

/// Compiles the invocation's tokens (everything after the program name)
/// into the invocation they spell.
#[verifier::loop_isolation(false)]
#[verifier::rlimit(100)]
pub fn compile(tokens: &Vec<Vec<u8>>) -> (r: Result<Invocation, ArgError>)
    ensures
        match r {
            Ok(inv) => spec_compile(tokens.deep_view()) == Ok::<InvocationModel, ArgError>(inv@),
            Err(e) => spec_compile(tokens.deep_view()) == Err::<InvocationModel, ArgError>(e),
        },
{
    let ghost tdv = tokens.deep_view();
    let n = tokens.len();
    if n == 0 {
        return Ok(Invocation::PrintRegistry);
    }
    proof {
        assert(tokens@[0]@ =~= tdv[0]);
    }
    let q1 = f_q_v();
    let q2 = f_query_v();
    let b1 = f_b_v();
    let b2 = f_bind_v();
    let first_query = bytes_eq(tokens[0].as_slice(), q1.as_slice()) || bytes_eq(
        tokens[0].as_slice(),
        q2.as_slice(),
    );
    let first_bind = bytes_eq(tokens[0].as_slice(), b1.as_slice()) || bytes_eq(
        tokens[0].as_slice(),
        b2.as_slice(),
    );
    if n == 1 {
        let h1 = f_h_v();
        let h2 = f_help_v();
        if bytes_eq(tokens[0].as_slice(), h1.as_slice()) || bytes_eq(
            tokens[0].as_slice(),
            h2.as_slice(),
        ) {
            return Ok(Invocation::Usage);
        }
    }
    if !first_query && !first_bind {
        return Err(ArgError::UnrecognizedToken);
    }
    let e1 = f_e_v();
    let e2 = f_event_v();
    let d1 = f_d_v();
    let d2 = f_decoded_v();
    let rw1 = f_r_v();
    let rw2 = f_raw_v();
    let t1 = f_t_v();
    let t2 = f_terminal_v();
    let l1 = f_l_v();
    let l2 = f_logfile_v();
    let lc1 = f_lc_v();
    let lc2 = f_logfile_continue_v();
    let lo1 = f_lo_v();
    let lo2 = f_logfile_overwrite_v();
    let ld1 = f_ld_v();
    let ld2 = f_logfile_with_date_v();
    let mut cur = if first_query {
        ActionGroup { kind: GroupKind::Query, pats: Vec::new() }
    } else {
        ActionGroup {
            kind: GroupKind::Bind(
                BindOptions {
                    raw: true,
                    stdout: true,
                    overwrite: false,
                    with_date: false,
                    path: None,
                },
            ),
            pats: Vec::new(),
        }
    };
    let ghost g0 = cur@;
    proof {
        if first_query {
            assert(g0 =~= fresh_group(KindModel::Query));
        } else {
            assert(g0.kind matches KindModel::Bind(o) && o =~= default_opts());
            assert(g0 =~= fresh_group(KindModel::Bind(default_opts())));
        }
    }
    let mut acc: Vec<ActionGroup> = Vec::new();
    let mut i: usize = 1;
    proof {
        assert(acc.deep_view() =~~= Seq::<GroupModel>::empty());
    }
    while i < n
        invariant
            1 <= i <= n,
            spec_compile_groups(tdv, 1, g0, Seq::<GroupModel>::empty()) == spec_compile_groups(
                tdv,
                i as int,
                cur@,
                acc.deep_view(),
            ),
        decreases n - i,
    {
        proof {
            assert(tokens@[i as int]@ =~= tdv[i as int]);
        }
        let t = tokens[i].as_slice();
        let ghost old_cur = cur@;
        let ghost old_acc = acc.deep_view();
        if bytes_eq(t, q1.as_slice()) || bytes_eq(t, q2.as_slice()) {
            acc.push(cur);
            cur = ActionGroup { kind: GroupKind::Query, pats: Vec::new() };
            proof {
                assert(acc.deep_view() =~~= old_acc.push(old_cur));
                assert(cur@ =~= fresh_group(KindModel::Query));
            }
            i += 1;
        } else if bytes_eq(t, b1.as_slice()) || bytes_eq(t, b2.as_slice()) {
            acc.push(cur);
            cur = ActionGroup {
                kind: GroupKind::Bind(
                    BindOptions {
                        raw: true,
                        stdout: true,
                        overwrite: false,
                        with_date: false,
                        path: None,
                    },
                ),
                pats: Vec::new(),
            };
            proof {
                assert(acc.deep_view() =~~= old_acc.push(old_cur));
                assert(cur@.kind matches KindModel::Bind(o) && o =~= default_opts());
                assert(cur@ =~= fresh_group(KindModel::Bind(default_opts())));
            }
            i += 1;
        } else {
            let is_bind_group = match &cur.kind {
                GroupKind::Query => false,
                GroupKind::Bind(_) => true,
            };
            if !is_bind_group {
                if t.len() > 0 && t[0] == DASH {
                    return Err(ArgError::UnrecognizedToken);
                }
                cur.pats.push(vstd::slice::slice_to_vec(t));
                proof {
                    assert(cur@ =~= GroupModel {
                        pats: old_cur.pats.push(tdv[i as int]),
                        ..old_cur
                    });
                }
                i += 1;
            } else {
                if bytes_eq(t, e1.as_slice()) || bytes_eq(t, e2.as_slice()) || bytes_eq(
                    t,
                    d1.as_slice(),
                ) || bytes_eq(t, d2.as_slice()) {
                    match &mut cur.kind {
                        GroupKind::Bind(o) => {
                            o.raw = false;
                        },
                        GroupKind::Query => {},
                    }
                    proof {
                        assert(old_cur.kind matches KindModel::Bind(oo) && cur@ =~= GroupModel {
                            kind: KindModel::Bind(OptionsModel { raw: false, ..oo }),
                            ..old_cur
                        });
                    }
                    i += 1;
                } else if bytes_eq(t, rw1.as_slice()) || bytes_eq(t, rw2.as_slice()) {
                    match &mut cur.kind {
                        GroupKind::Bind(o) => {
                            o.raw = true;
                        },
                        GroupKind::Query => {},
                    }
                    proof {
                        assert(old_cur.kind matches KindModel::Bind(oo) && cur@ =~= GroupModel {
                            kind: KindModel::Bind(OptionsModel { raw: true, ..oo }),
                            ..old_cur
                        });
                    }
                    i += 1;
                } else if bytes_eq(t, t1.as_slice()) || bytes_eq(t, t2.as_slice()) {
                    match &mut cur.kind {
                        GroupKind::Bind(o) => {
                            o.stdout = true;
                        },
                        GroupKind::Query => {},
                    }
                    proof {
                        assert(old_cur.kind matches KindModel::Bind(oo) && cur@ =~= GroupModel {
                            kind: KindModel::Bind(OptionsModel { stdout: true, ..oo }),
                            ..old_cur
                        });
                    }
                    i += 1;
                } else if bytes_eq(t, l1.as_slice()) || bytes_eq(t, l2.as_slice()) || bytes_eq(
                    t,
                    lc1.as_slice(),
                ) || bytes_eq(t, lc2.as_slice()) {
                    if i + 1 >= n {
                        return Err(ArgError::MissingLogPath);
                    }
                    proof {
                        assert(tokens@[i + 1]@ =~= tdv[i + 1]);
                    }
                    let path = vstd::slice::slice_to_vec(tokens[i + 1].as_slice());
                    match &mut cur.kind {
                        GroupKind::Bind(o) => {
                            o.stdout = false;
                            o.overwrite = false;
                            o.with_date = false;
                            o.path = Some(path);
                        },
                        GroupKind::Query => {},
                    }
                    proof {
                        assert(old_cur.kind matches KindModel::Bind(oo) && cur@ =~= GroupModel {
                            kind: KindModel::Bind(
                                OptionsModel {
                                    stdout: false,
                                    overwrite: false,
                                    with_date: false,
                                    path: Some(tdv[i + 1]),
                                    ..oo
                                },
                            ),
                            ..old_cur
                        });
                    }
                    i += 2;
                } else if bytes_eq(t, lo1.as_slice()) || bytes_eq(t, lo2.as_slice()) {
                    if i + 1 >= n {
                        return Err(ArgError::MissingLogPath);
                    }
                    proof {
                        assert(tokens@[i + 1]@ =~= tdv[i + 1]);
                    }
                    let path = vstd::slice::slice_to_vec(tokens[i + 1].as_slice());
                    match &mut cur.kind {
                        GroupKind::Bind(o) => {
                            o.stdout = false;
                            o.overwrite = true;
                            o.with_date = false;
                            o.path = Some(path);
                        },
                        GroupKind::Query => {},
                    }
                    proof {
                        assert(old_cur.kind matches KindModel::Bind(oo) && cur@ =~= GroupModel {
                            kind: KindModel::Bind(
                                OptionsModel {
                                    stdout: false,
                                    overwrite: true,
                                    with_date: false,
                                    path: Some(tdv[i + 1]),
                                    ..oo
                                },
                            ),
                            ..old_cur
                        });
                    }
                    i += 2;
                } else if bytes_eq(t, ld1.as_slice()) || bytes_eq(t, ld2.as_slice()) {
                    if i + 1 >= n {
                        return Err(ArgError::MissingLogPath);
                    }
                    proof {
                        assert(tokens@[i + 1]@ =~= tdv[i + 1]);
                    }
                    let path = vstd::slice::slice_to_vec(tokens[i + 1].as_slice());
                    match &mut cur.kind {
                        GroupKind::Bind(o) => {
                            o.stdout = false;
                            o.overwrite = false;
                            o.with_date = true;
                            o.path = Some(path);
                        },
                        GroupKind::Query => {},
                    }
                    proof {
                        assert(old_cur.kind matches KindModel::Bind(oo) && cur@ =~= GroupModel {
                            kind: KindModel::Bind(
                                OptionsModel {
                                    stdout: false,
                                    overwrite: false,
                                    with_date: true,
                                    path: Some(tdv[i + 1]),
                                    ..oo
                                },
                            ),
                            ..old_cur
                        });
                    }
                    i += 2;
                } else if t.len() > 0 && t[0] == DASH {
                    return Err(ArgError::UnrecognizedToken);
                } else {
                    cur.pats.push(vstd::slice::slice_to_vec(t));
                    proof {
                        assert(cur@ =~= GroupModel {
                            pats: old_cur.pats.push(tdv[i as int]),
                            ..old_cur
                        });
                    }
                    i += 1;
                }
            }
        }
    }
    let ghost final_acc = acc.deep_view();
    let ghost final_cur = cur@;
    acc.push(cur);
    proof {
        assert(acc.deep_view() =~~= final_acc.push(final_cur));
    }
    Ok(Invocation::Groups(acc))
}

} // verus!
