//! Which live connections a revoked personal access token loses, and in what
//! order a revocation takes effect.
//!
//! A token of an owner or an admin reaches every tenant; a token of anybody
//! else reaches the tenants that its holder owns. A revocation closes the
//! connections of exactly those tenants, so that a member who revokes their
//! own token disturbs nobody else. Whatever cannot be read counts as reaching
//! every tenant, for a connection too many closed does less harm than one too
//! few.
//!
//! A client whose connection is closed comes back at once. The cache that
//! would let it in again is cleared before any connection is closed.

use vstd::prelude::*;
use crate::text::{copy_all, str_eq, views};

verus! {

/// A role that reaches every tenant.
pub open spec fn sees_all(role: Seq<char>) -> bool {
    role == "owner"@ || role == "admin"@
}

pub fn sees_all_tenants(role: &str) -> (r: bool)
    ensures
        r == sees_all(role@),
{
    str_eq(role, "owner") || str_eq(role, "admin")
}

/// Where a token may hold connections.
#[derive(Debug)]
pub enum PatReach {
    HostWide,
    Owned(Vec<String>),
}

/// Where a token may hold connections, as mathematics has it.
pub enum ReachView {
    HostWide,
    Owned(Seq<Seq<char>>),
}

impl View for PatReach {
    type V = ReachView;

    open spec fn view(&self) -> ReachView {
        match self {
            PatReach::HostWide => ReachView::HostWide,
            PatReach::Owned(ids) => ReachView::Owned(views(ids@)),
        }
    }
}

/// The reach of a token whose holder has that role and owns those tenants,
/// `None` standing for what could not be read.
pub open spec fn reach_of(role: Option<Seq<char>>, owned: Option<Seq<Seq<char>>>) -> ReachView {
    match role {
        None => ReachView::HostWide,
        Some(r) => if sees_all(r) {
            ReachView::HostWide
        } else {
            match owned {
                None => ReachView::HostWide,
                Some(ids) => ReachView::Owned(ids),
            }
        },
    }
}

/// Works out the reach of a token from the role of its holder and the tenants
/// that the holder owns and that are not deleted.
pub fn read_pat_reach(role: Option<&str>, owned: Option<&Vec<String>>) -> (r: PatReach)
    ensures
        r@ == reach_of(
            match role {
                Some(x) => Some(x@),
                None => None,
            },
            match owned {
                Some(v) => Some(views(v@)),
                None => None,
            },
        ),
{
    match role {
        None => PatReach::HostWide,
        Some(x) => if sees_all_tenants(x) {
            PatReach::HostWide
        } else {
            match owned {
                None => PatReach::HostWide,
                Some(ids) => PatReach::Owned(copy_all(ids)),
            }
        },
    }
}

/// A tenant, who owns it, and whether it is deleted.
#[derive(Debug)]
pub struct TenantRow {
    pub id: String,
    pub owner: Option<i64>,
    pub deleted: bool,
}

/// A tenant that an administrator owns and that is not deleted.
pub open spec fn owns(row: TenantRow, admin_id: i64) -> bool {
    row.owner == Some(admin_id) && !row.deleted
}

/// The ids of the tenants that an administrator owns and that are not deleted,
/// in their order.
pub open spec fn owned_ids(rows: Seq<TenantRow>, admin_id: i64) -> Seq<Seq<char>>
    decreases rows.len(),
{
    if rows.len() == 0 {
        Seq::<Seq<char>>::empty()
    } else {
        let head = owned_ids(rows.drop_last(), admin_id);
        if owns(rows.last(), admin_id) {
            head.push(rows.last().id@)
        } else {
            head
        }
    }
}

/// A token of somebody who does not see every tenant reaches a tenant only
/// where they own it and it is not deleted.
pub proof fn law_reach_is_what_is_owned(rows: Seq<TenantRow>, admin_id: i64, id: Seq<char>)
    ensures
        owned_ids(rows, admin_id).contains(id) <==> exists|i: int|
            0 <= i < rows.len() && owns(#[trigger] rows[i], admin_id) && rows[i].id@ == id,
    decreases rows.len(),
{
    let all = owned_ids(rows, admin_id);
    if rows.len() > 0 {
        let init = rows.drop_last();
        let head = owned_ids(init, admin_id);
        law_reach_is_what_is_owned(init, admin_id, id);
        if all.contains(id) {
            let k = choose|k: int| 0 <= k < all.len() && all[k] == id;
            if k < head.len() {
                assert(head[k] == id);
                let i = choose|i: int|
                    0 <= i < init.len() && owns(#[trigger] init[i], admin_id) && init[i].id@ == id;
                assert(rows[i] == init[i]);
            } else {
                assert(rows[rows.len() - 1] == rows.last());
            }
        }
        if exists|i: int|
            0 <= i < rows.len() && owns(#[trigger] rows[i], admin_id) && rows[i].id@ == id {
            let i = choose|i: int|
                0 <= i < rows.len() && owns(#[trigger] rows[i], admin_id) && rows[i].id@ == id;
            if i < init.len() {
                assert(init[i] == rows[i]);
                let k = choose|k: int| 0 <= k < head.len() && head[k] == id;
                assert(all[k] == id);
            } else {
                assert(all[head.len() as int] == id);
            }
        }
    }
}

/// Picks the tenants that an administrator owns and that are not deleted.
pub fn owned_tenants(rows: &Vec<TenantRow>, admin_id: i64) -> (r: Vec<String>)
    ensures
        views(r@) == owned_ids(rows@, admin_id),
{
    let mut r: Vec<String> = Vec::new();
    let mut i: usize = 0;
    assert(rows@.take(0) =~= Seq::<TenantRow>::empty());
    assert(views(r@) =~= Seq::<Seq<char>>::empty());
    while i < rows.len()
        invariant
            i <= rows@.len(),
            views(r@) == owned_ids(rows@.take(i as int), admin_id),
        decreases rows@.len() - i,
    {
        proof {
            assert(rows@.take(i as int + 1).drop_last() =~= rows@.take(i as int));
            assert(rows@.take(i as int + 1).last() == rows@[i as int]);
        }
        let mine: bool = match rows[i].owner {
            Some(o) => o == admin_id,
            None => false,
        };
        if mine && !rows[i].deleted {
            let ghost before = views(r@);
            r.push(rows[i].id.clone());
            assert(views(r@) =~= before.push(rows@[i as int].id@));
        }
        i = i + 1;
    }
    assert(rows@.take(i as int) =~= rows@);
    r
}

/// One step of a revocation.
#[derive(Debug)]
pub enum RevokeStep {
    /// Forget the cached tokens of this administrator.
    ClearPatCache(i64),
    /// Close the connections of every tenant.
    EvictAllTenants,
    /// Close the connections of this tenant.
    EvictTenant(String),
}

/// One step of a revocation, as mathematics has it.
pub enum StepView {
    ClearPatCache(int),
    EvictAllTenants,
    EvictTenant(Seq<char>),
}

impl View for RevokeStep {
    type V = StepView;

    open spec fn view(&self) -> StepView {
        match self {
            RevokeStep::ClearPatCache(id) => StepView::ClearPatCache(*id as int),
            RevokeStep::EvictAllTenants => StepView::EvictAllTenants,
            RevokeStep::EvictTenant(t) => StepView::EvictTenant(t@),
        }
    }
}

/// The steps, as mathematics has them.
pub open spec fn step_views(v: Seq<RevokeStep>) -> Seq<StepView> {
    v.map_values(|s: RevokeStep| s@)
}

/// Every cache is cleared before any connection is closed.
pub open spec fn clears_first(steps: Seq<StepView>) -> bool {
    forall|i: int, j: int|
        0 <= i < steps.len() && 0 <= j < steps.len() && #[trigger] steps[i] is ClearPatCache && !(
        #[trigger] steps[j] is ClearPatCache) ==> i < j
}

/// The steps that close the connections of a reach.
pub open spec fn evictions(reach: ReachView) -> Seq<StepView> {
    match reach {
        ReachView::HostWide => seq![StepView::EvictAllTenants],
        ReachView::Owned(ids) => ids.map_values(|id: Seq<char>| StepView::EvictTenant(id)),
    }
}

/// The steps that revoke the tokens of an administrator with that reach.
pub open spec fn revocation(admin_id: int, reach: ReachView) -> Seq<StepView> {
    seq![StepView::ClearPatCache(admin_id)] + evictions(reach)
}

/// Whatever the reach, the cache is cleared before any connection is closed.
pub proof fn law_cache_is_cleared_first(admin_id: int, reach: ReachView)
    ensures
        clears_first(revocation(admin_id, reach)),
        revocation(admin_id, reach)[0] == StepView::ClearPatCache(admin_id),
{
    let steps = revocation(admin_id, reach);
    assert(steps[0] == StepView::ClearPatCache(admin_id));
    assert forall|i: int| 1 <= i < steps.len() implies !(#[trigger] steps[i] is ClearPatCache) by {
        assert(steps[i] == evictions(reach)[i - 1]);
    }
}

/// A token that reaches only some tenants loses the connections of those and
/// of no other.
pub proof fn law_narrow_reach_spares_others(admin_id: int, ids: Seq<Seq<char>>, tenant: Seq<char>)
    ensures
        !revocation(admin_id, ReachView::Owned(ids)).contains(StepView::EvictAllTenants),
        revocation(admin_id, ReachView::Owned(ids)).contains(StepView::EvictTenant(tenant))
            <==> ids.contains(tenant),
{
    let steps = revocation(admin_id, ReachView::Owned(ids));
    let ev = evictions(ReachView::Owned(ids));
    if steps.contains(StepView::EvictTenant(tenant)) {
        let i = choose|i: int| 0 <= i < steps.len() && steps[i] == StepView::EvictTenant(tenant);
        assert(steps[i] == ev[i - 1]);
        assert(ids[i - 1] == tenant);
    }
    if ids.contains(tenant) {
        let k = choose|k: int| 0 <= k < ids.len() && ids[k] == tenant;
        assert(steps[k + 1] == ev[k]);
    }
    if steps.contains(StepView::EvictAllTenants) {
        let i = choose|i: int| 0 <= i < steps.len() && steps[i] == StepView::EvictAllTenants;
        assert(steps[i] == ev[i - 1]);
    }
}

/// Lists the steps that revoke the tokens of an administrator.
pub fn revocation_steps(admin_id: i64, reach: &PatReach) -> (r: Vec<RevokeStep>)
    ensures
        step_views(r@) == revocation(admin_id as int, reach@),
        clears_first(step_views(r@)),
{
    let mut steps: Vec<RevokeStep> = Vec::new();
    steps.push(RevokeStep::ClearPatCache(admin_id));
    evict_reach(&mut steps, reach);
    assert(step_views(steps@) =~= revocation(admin_id as int, reach@));
    proof {
        law_cache_is_cleared_first(admin_id as int, reach@);
    }
    steps
}

/// Appends the steps that close the connections of a reach.
pub fn evict_reach(steps: &mut Vec<RevokeStep>, reach: &PatReach)
    ensures
        step_views(final(steps)@) == step_views(old(steps)@) + evictions(reach@),
{
    let ghost start = step_views(steps@);
    match reach {
        PatReach::HostWide => {
            steps.push(RevokeStep::EvictAllTenants);
            assert(step_views(steps@) =~= start + evictions(reach@));
        },
        PatReach::Owned(ids) => {
            let mut i: usize = 0;
            while i < ids.len()
                invariant
                    i <= ids.len(),
                    step_views(steps@).len() == start.len() + i,
                    forall|k: int| 0 <= k < start.len() ==> step_views(steps@)[k] == start[k],
                    forall|k: int|
                        start.len() <= k < start.len() + i ==> #[trigger] step_views(steps@)[k]
                            == StepView::EvictTenant(ids@[k - start.len()]@),
                decreases ids.len() - i,
            {
                let ghost before = step_views(steps@);
                steps.push(RevokeStep::EvictTenant(ids[i].clone()));
                assert(step_views(steps@) =~= before.push(StepView::EvictTenant(ids@[i as int]@)));
                i = i + 1;
            }
            assert(evictions(reach@).len() == ids@.len());
            assert(step_views(steps@) =~= start + evictions(reach@));
        },
    }
}

/// The steps that follow the transfer of a tenant from one owner to another:
/// the cached tokens of both are forgotten, then the connections of the tenant
/// are closed. A transfer that changes nothing closes nothing.
pub open spec fn transfer(old_owner: Option<int>, new_owner: Option<int>, tenant: Seq<char>) -> Seq<
    StepView,
> {
    let a = match old_owner {
        Some(id) => seq![StepView::ClearPatCache(id)],
        None => Seq::<StepView>::empty(),
    };
    let b = match new_owner {
        Some(id) => seq![StepView::ClearPatCache(id)],
        None => Seq::<StepView>::empty(),
    };
    if old_owner == new_owner {
        Seq::<StepView>::empty()
    } else {
        a + b + seq![StepView::EvictTenant(tenant)]
    }
}

/// Lists the steps that follow the transfer of a tenant.
pub fn patch_tenant_owner(old_owner: Option<i64>, new_owner: Option<i64>, tenant: &str) -> (r: Vec<
    RevokeStep,
>)
    ensures
        step_views(r@) == transfer(
            match old_owner {
                Some(x) => Some(x as int),
                None => None,
            },
            match new_owner {
                Some(x) => Some(x as int),
                None => None,
            },
            tenant@,
        ),
        clears_first(step_views(r@)),
{
    let mut steps: Vec<RevokeStep> = Vec::new();
    let same: bool = match (old_owner, new_owner) {
        (Some(a), Some(b)) => a == b,
        (None, None) => true,
        _ => false,
    };
    if !same {
        if let Some(id) = old_owner {
            steps.push(RevokeStep::ClearPatCache(id));
        }
        if let Some(id) = new_owner {
            steps.push(RevokeStep::ClearPatCache(id));
        }
        steps.push(RevokeStep::EvictTenant(tenant.to_owned()));
    }
    assert(step_views(steps@) =~= transfer(
        match old_owner {
            Some(x) => Some(x as int),
            None => None,
        },
        match new_owner {
            Some(x) => Some(x as int),
            None => None,
        },
        tenant@,
    ));
    steps
}

/// A token of somebody who sees every tenant reaches all of them, and so does one of
/// somebody of whom nothing could be read; any other reaches the tenants of its holder.
pub proof fn law_reach_follows_the_role(role: Seq<char>, ids: Seq<Seq<char>>)
    ensures
        role == "owner"@ || role == "admin"@ ==> reach_of(Some(role), Some(ids))
            == ReachView::HostWide,
        role != "owner"@ && role != "admin"@ ==> reach_of(Some(role), Some(ids))
            == ReachView::Owned(ids),
        reach_of(None, Some(ids)) == ReachView::HostWide,
        reach_of(Some(role), None) == ReachView::HostWide,
{
}

/// A transfer is felt at once: the cache forgets the tokens of the old and the new owner,
/// and the connections of the tenant are closed, those of no other. One that changes
/// nothing does nothing.
pub proof fn law_transfers_take_effect(
    old_owner: Option<int>,
    new_owner: Option<int>,
    tenant: Seq<char>,
    other: Seq<char>,
)
    ensures
        old_owner == new_owner ==> transfer(old_owner, new_owner, tenant).len() == 0,
        old_owner != new_owner ==> {
            let steps = transfer(old_owner, new_owner, tenant);
            &&& steps.contains(StepView::EvictTenant(tenant))
            &&& old_owner matches Some(id) ==> steps.contains(StepView::ClearPatCache(id))
            &&& new_owner matches Some(id) ==> steps.contains(StepView::ClearPatCache(id))
            &&& other != tenant ==> !steps.contains(StepView::EvictTenant(other))
            &&& !steps.contains(StepView::EvictAllTenants)
            &&& clears_first(steps)
        },
{
    let steps = transfer(old_owner, new_owner, tenant);
    if old_owner != new_owner {
        let n = steps.len() - 1;
        assert(steps[n] == StepView::EvictTenant(tenant));
        if old_owner is Some {
            assert(steps[0] == StepView::ClearPatCache(old_owner->0));
        }
        if new_owner is Some {
            assert(steps[n - 1] == StepView::ClearPatCache(new_owner->0));
        }
        assert forall|i: int| 0 <= i < n implies #[trigger] steps[i] is ClearPatCache by {}
    }
}

/// A token that reaches every tenant closes the connections of all at once.
pub proof fn law_wide_reach_closes_everything(admin_id: int, reach: ReachView)
    ensures
        revocation(admin_id, reach).contains(StepView::EvictAllTenants) <==> reach is HostWide,
        reach is HostWide ==> revocation(admin_id, reach).len() == 2,
        reach matches ReachView::Owned(ids) ==> revocation(admin_id, reach).len() == ids.len() + 1,
{
    let steps = revocation(admin_id, reach);
    match reach {
        ReachView::HostWide => {
            assert(steps[1] == evictions(reach)[0]);
        },
        ReachView::Owned(ids) => {
            law_narrow_reach_spares_others(admin_id, ids, Seq::<char>::empty());
        },
    }
}

} // verus!
