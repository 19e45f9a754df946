//! The resolver: it hands each device record to at most one action group.
//!
//! All records live in an indexed pool; resolving a group selects the
//! still-free records whose name carries all of the group's patterns, marks
//! them claimed, and returns their indices in ascending order.  Groups are
//! resolved in declaration order, so an earlier group claims a device ahead
//! of a later one, and one invocation never hands the same record to two
//! groups: see `lemma_resolver_exclusive`.

use vstd::prelude::*;

use crate::actions::ActionGroup;
use crate::actions::BindOptions;
use crate::actions::GroupKind;
use crate::actions::GroupModel;
use crate::actions::KindModel;
use crate::actions::OptionsModel;
use crate::registry::DeviceModel;
use crate::registry::InputDevice;
use crate::registry::device_matches;
use crate::registry::spec_first_event;
use crate::registry::spec_matches;

verus! {

/// An exact copy of a byte vector.
fn copy_bytes(v: &Vec<u8>) -> (r: Vec<u8>)
    ensures
        r@ == v@,
{
    vstd::slice::slice_to_vec(v.as_slice())
}

/// An exact copy of a bind group's options.
fn copy_opts(o: &BindOptions) -> (r: BindOptions)
    ensures
        r@ == o@,
{
    let path = match &o.path {
        None => None,
        Some(p) => Some(copy_bytes(p)),
    };
    BindOptions {
        raw: o.raw,
        stdout: o.stdout,
        overwrite: o.overwrite,
        with_date: o.with_date,
        path,
    }
}

/// An exact copy of a resolved target.
fn copy_target(t: &ResolvedTarget) -> (r: ResolvedTarget)
    ensures
        r@ == t@,
{
    ResolvedTarget {
        name: copy_bytes(&t.name),
        event: copy_bytes(&t.event),
        opts: copy_opts(&t.opts),
    }
}

/// The indexed store of all scanned records, with a claimed mark per
/// record.  Records are never removed: a claimed record stays in place so
/// indices remain stable.
pub struct DevicePool {
    pub devices: Vec<InputDevice>,
    pub taken: Vec<bool>,
}

impl DevicePool {
    /// One mark per record.
    pub open spec fn wf(self) -> bool {
        self.taken@.len() == self.devices@.len()
    }

    /// A pool over the records, all of them still free.
    pub fn new(devices: Vec<InputDevice>) -> (r: DevicePool)
        ensures
            r.wf(),
            r.devices == devices,
            forall|i: int| 0 <= i < r.taken@.len() ==> r.taken@[i] == false,
    {
        let n = devices.len();
        let mut taken: Vec<bool> = Vec::new();
        let mut i: usize = 0;
        while i < n
            invariant
                0 <= i <= n,
                taken@.len() == i,
                forall|k: int| 0 <= k < i ==> taken@[k] == false,
            decreases n - i,
        {
            taken.push(false);
            i += 1;
        }
        DevicePool { devices, taken }
    }
}

/// Whether the group with these patterns can claim record `i` of a pool in
/// this state.
pub open spec fn spec_selected(
    devs: Seq<DeviceModel>,
    taken: Seq<bool>,
    pats: Seq<Seq<u8>>,
    i: int,
) -> bool {
    !taken[i] && spec_matches(devs[i].n, pats)
}

/// The indices below `n` that the group claims, in ascending order.
pub open spec fn spec_select_upto(
    devs: Seq<DeviceModel>,
    taken: Seq<bool>,
    pats: Seq<Seq<u8>>,
    n: int,
) -> Seq<usize>
    decreases n,
{
    if n <= 0 {
        Seq::<usize>::empty()
    } else {
        let rest = spec_select_upto(devs, taken, pats, n - 1);
        if spec_selected(devs, taken, pats, n - 1) {
            rest.push((n - 1) as usize)
        } else {
            rest
        }
    }
}

/// The marks after the group has claimed the records below `i`.
pub open spec fn spec_mark_upto(
    devs: Seq<DeviceModel>,
    t0: Seq<bool>,
    pats: Seq<Seq<u8>>,
    i: int,
) -> Seq<bool> {
    Seq::new(
        t0.len(),
        |k: int|
            if k < i {
                t0[k] || spec_matches(devs[k].n, pats)
            } else {
                t0[k]
            },
    )
}

/// The marks after the group has claimed its records.
pub open spec fn spec_mark(devs: Seq<DeviceModel>, taken: Seq<bool>, pats: Seq<Seq<u8>>) -> Seq<
    bool,
> {
    Seq::new(taken.len(), |i: int| taken[i] || spec_matches(devs[i].n, pats))
}

/// What a selection holds: in-bounds, strictly ascending indices — exactly
/// the still-free matching ones.
pub proof fn lemma_spec_select(devs: Seq<DeviceModel>, taken: Seq<bool>, pats: Seq<Seq<u8>>, n: int)
    requires
        0 <= n <= devs.len(),
        devs.len() <= usize::MAX,
        taken.len() == devs.len(),
    ensures
        forall|t: int|
            0 <= t < spec_select_upto(devs, taken, pats, n).len() ==> 0 <= #[trigger] spec_select_upto(devs, taken, pats, n)[t] < n,
        forall|t: int, u: int|
            0 <= t < u < spec_select_upto(devs, taken, pats, n).len() ==> spec_select_upto(
                devs,
                taken,
                pats,
                n,
            )[t] < spec_select_upto(devs, taken, pats, n)[u],
        forall|i: int|
            0 <= i < n ==> (spec_select_upto(devs, taken, pats, n).contains(i as usize)
                <==> spec_selected(devs, taken, pats, i)),
    decreases n,
{
    if n > 0 {
        lemma_spec_select(devs, taken, pats, n - 1);
        let rest = spec_select_upto(devs, taken, pats, n - 1);
        let whole = spec_select_upto(devs, taken, pats, n);
        assert forall|i: int|
            0 <= i < n implies (whole.contains(i as usize) <==> spec_selected(
            devs,
            taken,
            pats,
            i,
        )) by {
            if i < n - 1 {
                if rest.contains(i as usize) {
                    let t = choose|t: int| 0 <= t < rest.len() && rest[t] == i as usize;
                    assert(whole[t] == i as usize);
                    assert(whole.contains(i as usize));
                }
                if whole.contains(i as usize) {
                    let t = choose|t: int| 0 <= t < whole.len() && whole[t] == i as usize;
                    assert(t < rest.len());
                    assert(rest.contains(i as usize));
                }
            } else {
                if spec_selected(devs, taken, pats, i) {
                    assert(whole[whole.len() - 1] == i as usize);
                    assert(whole.contains(i as usize));
                }
            }
        }
    }
}

/// Claims the still-free records matching the patterns: marks them and
/// returns their indices in ascending order.  The records themselves are
/// untouched.
#[verifier::loop_isolation(false)]
fn select(pats: &Vec<Vec<u8>>, pool: &mut DevicePool) -> (r: Vec<usize>)
    requires
        old(pool).wf(),
    ensures
        final(pool).wf(),
        final(pool).devices == old(pool).devices,
        r@ == spec_select_upto(
            old(pool).devices.deep_view(),
            old(pool).taken@,
            pats.deep_view(),
            old(pool).devices@.len() as int,
        ),
        final(pool).taken@ == spec_mark(
            old(pool).devices.deep_view(),
            old(pool).taken@,
            pats.deep_view(),
        ),
{
    let ghost ddv = old(pool).devices.deep_view();
    let ghost t0 = old(pool).taken@;
    let ghost pdv = pats.deep_view();
    let n = pool.devices.len();
    let mut r: Vec<usize> = Vec::new();
    let mut i: usize = 0;
    proof {
        assert(r@ =~= spec_select_upto(ddv, t0, pdv, 0));
    }
    while i < n
        invariant
            pool.wf(),
            n == pool.devices@.len(),
            pool.devices == old(pool).devices,
            ddv == old(pool).devices.deep_view(),
            t0 == old(pool).taken@,
            pdv == pats.deep_view(),
            0 <= i <= n,
            r@ == spec_select_upto(ddv, t0, pdv, i as int),
            pool.taken@ == spec_mark_upto(ddv, t0, pdv, i as int),
        decreases n - i,
    {
        proof {
            assert(pool.devices@[i as int]@ == ddv[i as int]);
        }
        let free = !pool.taken[i];
        let m = device_matches(&pool.devices[i], pats);
        if m && free {
            r.push(i);
            pool.taken.set(i, true);
        } else if m {
            pool.taken.set(i, true);
        }
        proof {
            assert(m == spec_matches(ddv[i as int].n, pdv));
            assert(pool.taken@ =~= spec_mark_upto(ddv, t0, pdv, i + 1));
        }
        i += 1;
    }
    proof {
        assert(pool.taken@ =~= spec_mark(ddv, t0, pdv));
    }
    r
}

/// One resolved group: its kind and the indices of the records it claimed.
#[derive(Debug)]
pub struct Action {
    pub kind: GroupKind,
    pub indices: Vec<usize>,
}

/// The mathematical value of `Action`.
#[verifier::ext_equal]
pub struct ActionModel {
    pub kind: KindModel,
    pub indices: Seq<usize>,
}

impl View for Action {
    type V = ActionModel;

    open spec fn view(&self) -> ActionModel {
        ActionModel { kind: self.kind@, indices: self.indices@ }
    }
}

impl DeepView for Action {
    type V = ActionModel;

    open spec fn deep_view(&self) -> ActionModel {
        self.view()
    }
}

/// Resolves one query group against the pool.
pub fn dquery(pats: &Vec<Vec<u8>>, pool: &mut DevicePool) -> (r: Action)
    requires
        old(pool).wf(),
    ensures
        final(pool).wf(),
        final(pool).devices == old(pool).devices,
        r@.kind == KindModel::Query,
        r@.indices == spec_select_upto(
            old(pool).devices.deep_view(),
            old(pool).taken@,
            pats.deep_view(),
            old(pool).devices@.len() as int,
        ),
        final(pool).taken@ == spec_mark(
            old(pool).devices.deep_view(),
            old(pool).taken@,
            pats.deep_view(),
        ),
{
    let indices = select(pats, pool);
    Action { kind: GroupKind::Query, indices }
}

/// Resolves one bind group against the pool, carrying its options along.
pub fn dbind(opts: BindOptions, pats: &Vec<Vec<u8>>, pool: &mut DevicePool) -> (r: Action)
    requires
        old(pool).wf(),
    ensures
        final(pool).wf(),
        final(pool).devices == old(pool).devices,
        r@.kind == KindModel::Bind(opts@),
        r@.indices == spec_select_upto(
            old(pool).devices.deep_view(),
            old(pool).taken@,
            pats.deep_view(),
            old(pool).devices@.len() as int,
        ),
        final(pool).taken@ == spec_mark(
            old(pool).devices.deep_view(),
            old(pool).taken@,
            pats.deep_view(),
        ),
{
    let indices = select(pats, pool);
    Action { kind: GroupKind::Bind(opts), indices }
}

/// The groups resolved in declaration order against an evolving pool
/// state: the actions, and the marks left behind.
pub open spec fn spec_resolve(
    devs: Seq<DeviceModel>,
    taken: Seq<bool>,
    groups: Seq<GroupModel>,
) -> (Seq<ActionModel>, Seq<bool>)
    decreases groups.len(),
{
    if groups.len() == 0 {
        (Seq::<ActionModel>::empty(), taken)
    } else {
        let g = groups[0];
        let sel = spec_select_upto(devs, taken, g.pats, devs.len() as int);
        let taken2 = spec_mark(devs, taken, g.pats);
        let r = spec_resolve(devs, taken2, groups.skip(1));
        (seq![ActionModel { kind: g.kind, indices: sel }] + r.0, r.1)
    }
}

/// Resolves every group, in declaration order, against the pool.
#[verifier::loop_isolation(false)]
pub fn actions(groups: &Vec<ActionGroup>, pool: &mut DevicePool) -> (r: Vec<Action>)
    requires
        old(pool).wf(),
    ensures
        final(pool).wf(),
        final(pool).devices == old(pool).devices,
        r.deep_view() == spec_resolve(
            old(pool).devices.deep_view(),
            old(pool).taken@,
            groups.deep_view(),
        ).0,
        final(pool).taken@ == spec_resolve(
            old(pool).devices.deep_view(),
            old(pool).taken@,
            groups.deep_view(),
        ).1,
{
    let ghost ddv = old(pool).devices.deep_view();
    let ghost t0 = old(pool).taken@;
    let ghost gdv = groups.deep_view();
    let n = groups.len();
    let mut r: Vec<Action> = Vec::new();
    let mut k: usize = 0;
    proof {
        assert(gdv.skip(0) =~~= gdv);
        assert(r.deep_view() =~~= Seq::<ActionModel>::empty());
    }
    while k < n
        invariant
            pool.wf(),
            pool.devices == old(pool).devices,
            0 <= k <= n,
            spec_resolve(ddv, t0, gdv).0 == r.deep_view() + spec_resolve(
                ddv,
                pool.taken@,
                gdv.skip(k as int),
            ).0,
            spec_resolve(ddv, t0, gdv).1 == spec_resolve(ddv, pool.taken@, gdv.skip(k as int)).1,
        decreases n - k,
    {
        let ghost tk = pool.taken@;
        proof {
            assert(gdv.skip(k as int)[0] == gdv[k as int]);
            assert(gdv.skip(k as int).skip(1) =~~= gdv.skip(k + 1));
            assert(groups@[k as int]@ == gdv[k as int]);
        }
        let g = &groups[k];
        let a = match &g.kind {
            GroupKind::Query => dquery(&g.pats, pool),
            GroupKind::Bind(o) => dbind(copy_opts(o), &g.pats, pool),
        };
        let ghost am = a@;
        let ghost old_r = r.deep_view();
        r.push(a);
        proof {
            assert(r.deep_view() =~~= old_r.push(am));
            assert(old_r.push(am) =~~= old_r + seq![am]);
            assert((old_r + seq![am]) + spec_resolve(ddv, pool.taken@, gdv.skip(k + 1)).0 =~~=
                old_r + (seq![am] + spec_resolve(ddv, pool.taken@, gdv.skip(k + 1)).0));
        }
        k += 1;
    }
    proof {
        assert(gdv.skip(n as int) =~~= Seq::<GroupModel>::empty());
        assert(r.deep_view() + Seq::<ActionModel>::empty() =~~= r.deep_view());
    }
    r
}

/// One action per group.
pub proof fn lemma_resolve_len(devs: Seq<DeviceModel>, taken: Seq<bool>, groups: Seq<GroupModel>)
    ensures
        spec_resolve(devs, taken, groups).0.len() == groups.len(),
    decreases groups.len(),
{
    if groups.len() > 0 {
        let taken2 = spec_mark(devs, taken, groups[0].pats);
        lemma_resolve_len(devs, taken2, groups.skip(1));
    }
}

/// Any index a resolved action holds was free when resolution started, and
/// lies inside the pool.
pub proof fn lemma_resolve_fresh(
    devs: Seq<DeviceModel>,
    taken: Seq<bool>,
    groups: Seq<GroupModel>,
    k: int,
    x: usize,
)
    requires
        taken.len() == devs.len(),
        devs.len() <= usize::MAX,
        0 <= k < groups.len(),
        spec_resolve(devs, taken, groups).0[k].indices.contains(x),
    ensures
        0 <= x < devs.len(),
        !taken[x as int],
    decreases groups.len(),
{
    let g = groups[0];
    let sel = spec_select_upto(devs, taken, g.pats, devs.len() as int);
    let taken2 = spec_mark(devs, taken, g.pats);
    let r = spec_resolve(devs, taken2, groups.skip(1));
    lemma_resolve_len(devs, taken2, groups.skip(1));
    lemma_spec_select(devs, taken, g.pats, devs.len() as int);
    let head = ActionModel { kind: g.kind, indices: sel };
    assert(spec_resolve(devs, taken, groups).0 == seq![head] + r.0);
    if k == 0 {
        assert((seq![head] + r.0)[0] == head);
        let t = choose|t: int| 0 <= t < sel.len() && sel[t] == x;
        assert(spec_selected(devs, taken, g.pats, x as int));
    } else {
        assert((seq![head] + r.0)[k] == r.0[k - 1]);
        lemma_resolve_fresh(devs, taken2, groups.skip(1), k - 1, x);
        assert(!taken2[x as int]);
    }
}

/// The resolver never hands one record to two groups: for any two distinct
/// groups of a single invocation, the index sets of their resolved actions
/// are disjoint (law).
pub proof fn lemma_resolver_exclusive(
    devs: Seq<DeviceModel>,
    taken: Seq<bool>,
    groups: Seq<GroupModel>,
    a: int,
    b: int,
    x: usize,
)
    requires
        taken.len() == devs.len(),
        devs.len() <= usize::MAX,
        0 <= a < b < groups.len(),
        spec_resolve(devs, taken, groups).0[a].indices.contains(x),
    ensures
        !spec_resolve(devs, taken, groups).0[b].indices.contains(x),
    decreases groups.len(),
{
    let g = groups[0];
    let sel = spec_select_upto(devs, taken, g.pats, devs.len() as int);
    let taken2 = spec_mark(devs, taken, g.pats);
    let r = spec_resolve(devs, taken2, groups.skip(1));
    lemma_resolve_len(devs, taken2, groups.skip(1));
    lemma_spec_select(devs, taken, g.pats, devs.len() as int);
    let head = ActionModel { kind: g.kind, indices: sel };
    assert(spec_resolve(devs, taken, groups).0 == seq![head] + r.0);
    if a == 0 {
        assert((seq![head] + r.0)[0] == head);
        let t = choose|t: int| 0 <= t < sel.len() && sel[t] == x;
        assert(spec_selected(devs, taken, g.pats, x as int));
        assert(taken2[x as int]);
        assert((seq![head] + r.0)[b] == r.0[b - 1]);
        if r.0[b - 1].indices.contains(x) {
            lemma_resolve_fresh(devs, taken2, groups.skip(1), b - 1, x);
        }
    } else {
        assert((seq![head] + r.0)[a] == r.0[a - 1]);
        assert((seq![head] + r.0)[b] == r.0[b - 1]);
        lemma_resolver_exclusive(devs, taken2, groups.skip(1), a - 1, b - 1, x);
    }
}

/// A device definitively assigned to one bind group: its name, its chosen
/// event handler, and the group's options.
#[derive(Debug)]
pub struct ResolvedTarget {
    pub name: Vec<u8>,
    pub event: Vec<u8>,
    pub opts: BindOptions,
}

/// The mathematical value of `ResolvedTarget`.
#[verifier::ext_equal]
pub struct TargetModel {
    pub name: Seq<u8>,
    pub event: Seq<u8>,
    pub opts: OptionsModel,
}

impl View for ResolvedTarget {
    type V = TargetModel;

    open spec fn view(&self) -> TargetModel {
        TargetModel { name: self.name@, event: self.event@, opts: self.opts@ }
    }
}

impl DeepView for ResolvedTarget {
    type V = TargetModel;

    open spec fn deep_view(&self) -> TargetModel {
        self.view()
    }
}

/// The bind target of one claimed record, if it exposes a readable event
/// node: a record with no such handler is dropped silently, since it cannot
/// be bound to a stream.
pub open spec fn spec_target(d: DeviceModel, o: OptionsModel) -> Option<TargetModel> {
    match spec_first_event(d.h) {
        None => None,
        Some(ev) => Some(TargetModel { name: d.n, event: ev, opts: o }),
    }
}

/// The targets of the first `k` claimed indices, in order; an index out of
/// the pool's range contributes nothing.
pub open spec fn spec_targets(
    devs: Seq<DeviceModel>,
    idx: Seq<usize>,
    o: OptionsModel,
    k: int,
) -> Seq<TargetModel>
    decreases k,
{
    if k <= 0 {
        Seq::<TargetModel>::empty()
    } else {
        let rest = spec_targets(devs, idx, o, k - 1);
        if idx[k - 1] < devs.len() {
            match spec_target(devs[idx[k - 1] as int], o) {
                None => rest,
                Some(t) => rest.push(t),
            }
        } else {
            rest
        }
    }
}

/// The targets of one resolved bind action: one per claimed record with an
/// event handler, in claim order.  A query action yields none.
pub fn baction(a: &Action, pool: &DevicePool) -> (r: Vec<ResolvedTarget>)
    ensures
        match a@.kind {
            KindModel::Bind(o) => r.deep_view() == spec_targets(
                pool.devices.deep_view(),
                a@.indices,
                o,
                a@.indices.len() as int,
            ),
            KindModel::Query => r.deep_view() == Seq::<TargetModel>::empty(),
        },
{
    let ghost ddv = pool.devices.deep_view();
    let opts = match &a.kind {
        GroupKind::Query => {
            let r: Vec<ResolvedTarget> = Vec::new();
            proof {
                assert(r.deep_view() =~~= Seq::<TargetModel>::empty());
            }
            return r;
        },
        GroupKind::Bind(o) => o,
    };
    let n = a.indices.len();
    let mut r: Vec<ResolvedTarget> = Vec::new();
    let mut k: usize = 0;
    proof {
        assert(r.deep_view() =~~= spec_targets(ddv, a@.indices, opts@, 0));
    }
    while k < n
        invariant
            n == a.indices@.len(),
            ddv == pool.devices.deep_view(),
            a@.kind == KindModel::Bind(opts@),
            0 <= k <= n,
            r.deep_view() == spec_targets(ddv, a@.indices, opts@, k as int),
        decreases n - k,
    {
        let i = a.indices[k];
        if i < pool.devices.len() {
            proof {
                assert(pool.devices@[i as int]@ == ddv[i as int]);
            }
            let d = &pool.devices[i];
            match d.event() {
                Some(ev) => {
                    let t = ResolvedTarget {
                        name: copy_bytes(d.name()),
                        event: copy_bytes(ev),
                        opts: copy_opts(opts),
                    };
                    let ghost old_r = r.deep_view();
                    let ghost tm = t@;
                    r.push(t);
                    proof {
                        assert(r.deep_view() =~~= old_r.push(tm));
                        assert(tm =~= spec_target(ddv[i as int], opts@).unwrap());
                    }
                },
                None => {},
            }
        }
        k += 1;
    }
    r
}

/// The flattened prefix of resolved actions' targets.
pub open spec fn spec_bactions(
    devs: Seq<DeviceModel>,
    acts: Seq<ActionModel>,
    k: int,
) -> Seq<TargetModel>
    decreases k,
{
    if k <= 0 {
        Seq::<TargetModel>::empty()
    } else {
        spec_bactions(devs, acts, k - 1) + match acts[k - 1].kind {
            KindModel::Bind(o) => spec_targets(
                devs,
                acts[k - 1].indices,
                o,
                acts[k - 1].indices.len() as int,
            ),
            KindModel::Query => Seq::<TargetModel>::empty(),
        }
    }
}

/// The targets of every resolved bind action, flattened in order.
pub fn bactions(acts: &Vec<Action>, pool: &DevicePool) -> (r: Vec<ResolvedTarget>)
    ensures
        r.deep_view() == spec_bactions(pool.devices.deep_view(), acts.deep_view(), acts@.len() as int),
{
    let ghost ddv = pool.devices.deep_view();
    let ghost adv = acts.deep_view();
    let n = acts.len();
    let mut r: Vec<ResolvedTarget> = Vec::new();
    let mut k: usize = 0;
    proof {
        assert(r.deep_view() =~~= spec_bactions(ddv, adv, 0));
    }
    while k < n
        invariant
            n == acts@.len(),
            ddv == pool.devices.deep_view(),
            adv == acts.deep_view(),
            0 <= k <= n,
            r.deep_view() == spec_bactions(ddv, adv, k as int),
        decreases n - k,
    {
        proof {
            assert(acts@[k as int]@ == adv[k as int]);
        }
        let mut ts = baction(&acts[k], pool);
        let ghost old_r = r.deep_view();
        let ghost tdv = ts.deep_view();
        let m = ts.len();
        let mut j: usize = 0;
        while j < m
            invariant
                m == ts@.len(),
                tdv == ts.deep_view(),
                0 <= j <= m,
                r.deep_view() == old_r + tdv.take(j as int),
            decreases m - j,
        {
            proof {
                assert(ts@[j as int]@ == tdv[j as int]);
                assert(old_r + tdv.take(j + 1) =~~= (old_r + tdv.take(j as int)).push(
                    tdv[j as int],
                ));
            }
            let ghost before = r.deep_view();
            let t = copy_target(&ts[j]);
            let ghost tm = t@;
            r.push(t);
            proof {
                assert(r.deep_view() =~~= before.push(tm));
                assert(tm =~= tdv[j as int]);
            }
            j += 1;
        }
        proof {
            assert(tdv.take(m as int) =~~= tdv);
            assert(r.deep_view() =~~= spec_bactions(ddv, adv, k + 1));
        }
        k += 1;
    }
    r
}

/// The flattened prefix of query actions' indices.
pub open spec fn spec_qdevices(acts: Seq<ActionModel>, k: int) -> Seq<usize>
    decreases k,
{
    if k <= 0 {
        Seq::<usize>::empty()
    } else {
        spec_qdevices(acts, k - 1) + match acts[k - 1].kind {
            KindModel::Query => acts[k - 1].indices,
            KindModel::Bind(_) => Seq::<usize>::empty(),
        }
    }
}

/// The indices claimed by every query action, flattened in order: the
/// records to report.
pub fn qdevices(acts: &Vec<Action>) -> (r: Vec<usize>)
    ensures
        r@ == spec_qdevices(acts.deep_view(), acts@.len() as int),
{
    let ghost adv = acts.deep_view();
    let n = acts.len();
    let mut r: Vec<usize> = Vec::new();
    let mut k: usize = 0;
    proof {
        assert(r@ =~= spec_qdevices(adv, 0));
    }
    while k < n
        invariant
            n == acts@.len(),
            adv == acts.deep_view(),
            0 <= k <= n,
            r@ == spec_qdevices(adv, k as int),
        decreases n - k,
    {
        proof {
            assert(acts@[k as int]@ == adv[k as int]);
        }
        match &acts[k].kind {
            GroupKind::Query => {
                let ghost old_r = r@;
                let idx = &acts[k].indices;
                let m = idx.len();
                let mut j: usize = 0;
                while j < m
                    invariant
                        m == idx@.len(),
                        idx@ == adv[k as int].indices,
                        0 <= j <= m,
                        r@ == old_r + idx@.take(j as int),
                    decreases m - j,
                {
                    proof {
                        assert(old_r + idx@.take(j + 1) =~= (old_r + idx@.take(j as int)).push(
                            idx@[j as int],
                        ));
                    }
                    r.push(idx[j]);
                    j += 1;
                }
                proof {
                    assert(idx@.take(m as int) =~= idx@);
                    assert(r@ =~= spec_qdevices(adv, k + 1));
                }
            },
            GroupKind::Bind(_) => {
                proof {
                    assert(r@ + Seq::<usize>::empty() =~= r@);
                }
            },
        }
        k += 1;
    }
    r
}

} // verus!
