//! One reconciliation pass for one tenant: what it needs from the tenant's
//! setup, and the plan it applies.

use vstd::prelude::*;

use crate::apply::{in_run_order, ApplySession, ReportView};
use crate::diff::{color_changed, create_ops, ChangeOperation, desired_op, diff, diff_ops, observed_op, observed_ops};
use crate::entity::{
    collapse, collapsed, has_key, key_index, lemma_first_index_unique, lemma_key_index, unique_keys,
    DesiredEntity, Named, ObservedEntity,
};
use crate::error::{MissingConfig, PassError};
use crate::member::{marked, member_roles};
use crate::position::{
    assign_positions, move_ops, placed, target_move,
    MAX_POSITIONS,
};

verus! {

/// A tenant's stored setup.
pub struct TenantConfig {
    pub guild_id: u64,
    /// The channel category that holds the member channels.
    pub container_id: Option<u64>,
    /// The tenant's system on the membership service.
    pub system_id: Option<String>,
    /// The access token for the membership service.
    pub token: Option<String>,
}

/// A channel of a tenant, as the remote side lists it.
pub struct RemoteChannel {
    pub id: u64,
    pub name: String,
    /// The category the channel sits in, if any.
    pub parent_id: Option<u64>,
    pub position: u16,
    /// The channel is a category, a container of other channels.
    pub is_category: bool,
}

/// The channels among the first `n` of `cs` that sit in `container`, in order.
pub open spec fn children(cs: Seq<RemoteChannel>, container: u64, n: int) -> Seq<ObservedEntity>
    decreases n,
{
    if n <= 0 {
        seq![]
    } else if cs[n - 1].parent_id == Some(container) {
        children(cs, container, n - 1).push(
            ObservedEntity { id: cs[n - 1].id, name: cs[n - 1].name, color: None, position: cs[n - 1].position },
        )
    } else {
        children(cs, container, n - 1)
    }
}

/// The channels that sit in `container`, as observed entities.
pub fn channels_in(channels: &Vec<RemoteChannel>, container: u64) -> (r: Vec<ObservedEntity>)
    ensures
        r@ == children(channels@, container, channels@.len() as int),
{
    let mut out: Vec<ObservedEntity> = Vec::new();
    let n = channels.len();
    for i in 0..n
        invariant
            n == channels@.len(),
            out@ == children(channels@, container, i as int),
    {
        let c = &channels[i];
        if c.parent_id == Some(container) {
            out.push(ObservedEntity { id: c.id, name: c.name.clone(), color: None, position: c.position });
        }
    }
    out
}

/// How to read a system from the membership service.
pub struct SystemAccess {
    pub system_id: String,
    /// The access token; empty for anonymous, public access.
    pub token: String,
}

/// What a channel pass for one tenant works on.
pub struct ChannelTarget {
    pub guild_id: u64,
    pub container_id: u64,
    pub access: SystemAccess,
}

/// The membership access that a tenant's setup gives, or the part that is missing.
pub fn system_access(cfg: &TenantConfig) -> (r: Result<SystemAccess, PassError>)
    ensures
        match r {
            Ok(a) => cfg.system_id is Some && a.system_id@ == cfg.system_id->Some_0@ && a.token@ == (
            match cfg.token {
                Some(t) => t@,
                None => Seq::<char>::empty(),
            }),
            Err(e) => cfg.system_id is None && e == PassError::ConfigMissing(MissingConfig::MembershipSystem),
        },
{
    match &cfg.system_id {
        None => Err(PassError::ConfigMissing(MissingConfig::MembershipSystem)),
        Some(system_id) => {
            let token = match &cfg.token {
                Some(t) => t.clone(),
                None => String::new(),
            };
            Ok(SystemAccess { system_id: system_id.clone(), token })
        },
    }
}

/// What a channel pass works on, or the part of the setup that is missing:
/// the container is looked at first, then the membership system. Nothing
/// remote is read before this succeeds.
pub fn channel_target(cfg: &TenantConfig) -> (r: Result<ChannelTarget, PassError>)
    ensures
        match r {
            Ok(t) => cfg.container_id == Some(t.container_id) && t.guild_id == cfg.guild_id
                && cfg.system_id is Some && t.access.system_id@ == cfg.system_id->Some_0@
                && t.access.token@ == (match cfg.token {
                Some(t) => t@,
                None => Seq::<char>::empty(),
            }),
            Err(e) => if cfg.container_id is None {
                e == PassError::ConfigMissing(MissingConfig::Container)
            } else {
                cfg.system_id is None && e == PassError::ConfigMissing(MissingConfig::MembershipSystem)
            },
        },
{
    match cfg.container_id {
        None => Err(PassError::ConfigMissing(MissingConfig::Container)),
        Some(container_id) => match system_access(cfg) {
            Err(e) => Err(e),
            Ok(access) => Ok(ChannelTarget { guild_id: cfg.guild_id, container_id, access }),
        },
    }
}

/// The message a user sees when a pass they asked for stops: how to finish
/// the setup where part of it is missing, a general notice otherwise.
pub open spec fn failure_text(e: PassError) -> Seq<char> {
    match e {
        PassError::ConfigMissing(MissingConfig::Container) => "fronter category not set-up, please run /setup-fronters"@,
        PassError::ConfigMissing(MissingConfig::MembershipSystem) => "PluralKit module not set-up, please run /setup-pk"@,
        _ => "reconciliation failed, please try again later"@,
    }
}

/// The message a user sees when a pass they asked for stops.
pub fn failure_message(e: &PassError) -> (r: String)
    ensures
        r@ == failure_text(*e),
{
    match e {
        PassError::ConfigMissing(MissingConfig::Container) => String::from_str(
            "fronter category not set-up, please run /setup-fronters",
        ),
        PassError::ConfigMissing(MissingConfig::MembershipSystem) => String::from_str(
            "PluralKit module not set-up, please run /setup-pk",
        ),
        _ => String::from_str("reconciliation failed, please try again later"),
    }
}

/// A placed sequence has the names of the sequence it places.
proof fn lemma_placed_keys(d: Seq<DesiredEntity>)
    requires
        unique_keys(d),
    ensures
        unique_keys(placed(d)),
{
    assert forall|i: int, j: int| 0 <= i < j < placed(d).len() implies #[trigger] placed(d)[i].key()
        != #[trigger] placed(d)[j].key() by {
        assert(placed(d)[i].key() == d[i].key());
        assert(placed(d)[j].key() == d[j].key());
    }
}

/// Plans a channel pass: channels that share a name count once (the last
/// wins), as do desired names; each desired channel gets its index in the
/// desired order as its target position; the session runs the diff of the
/// channels against those targets, then moves channels to their positions.
/// Fails, before anything is applied, where the positions run out.
pub fn plan_channel_pass(observed: &Vec<ObservedEntity>, desired: &Vec<DesiredEntity>) -> (r: Result<
    ApplySession,
    PassError,
>)
    ensures
        match r {
            Ok(s) => {
                &&& collapsed(desired@).len() <= MAX_POSITIONS
                &&& s.wf()
                &&& s@.ops == in_run_order(diff_ops(collapsed(observed@), placed(collapsed(desired@))))
                &&& s@.next == 0
                &&& s@.report == (ReportView { created: 0, deleted: 0, updated: 0, failures: seq![] })
                &&& s@.known == collapsed(observed@)
                &&& s@.targets == placed(collapsed(desired@))
                &&& !s@.moves_planned
            },
            Err(e) => collapsed(desired@).len() > MAX_POSITIONS && e == PassError::PositionOverflow(
                collapsed(desired@).len() as usize,
            ),
        },
{
    let obs = collapse(observed);
    let des = collapse(desired);
    match assign_positions(&des) {
        Err(e) => Err(e),
        Ok(targets) => {
            proof {
                lemma_placed_keys(des@);
            }
            let ops = diff(&obs, &targets);
            Ok(ApplySession::new(obs, targets, &ops))
        },
    }
}

/// Plans a role pass: among the tenant's roles, those with the marker are
/// compared with the desired roles (where names repeat, the last wins), and
/// the session runs their diff. Roles are not moved.
pub fn plan_role_pass(roles: &Vec<ObservedEntity>, desired: &Vec<DesiredEntity>) -> (r: ApplySession)
    ensures
        r.wf(),
        r@.ops == in_run_order(diff_ops(collapsed(marked(roles@, roles@.len() as int)), collapsed(desired@))),
        r@.next == 0,
        r@.report == (ReportView { created: 0, deleted: 0, updated: 0, failures: seq![] }),
        r@.known == collapsed(marked(roles@, roles@.len() as int)),
        r@.targets == Seq::<DesiredEntity>::empty(),
        !r@.moves_planned,
{
    let obs = collapse(&member_roles(roles));
    let des = collapse(desired);
    let ops = diff(&obs, &des);
    ApplySession::new(obs, Vec::new(), &ops)
}

/// The observed entity holds what the desired one asks for: its color where
/// one is asked, its position where one is asked.
pub open spec fn fulfils(e: ObservedEntity, t: DesiredEntity) -> bool {
    &&& !color_changed(e, t)
    &&& match t.position {
        Some(p) => e.position == p,
        None => true,
    }
}

/// The remote side holds exactly the desired names, once each, and each as
/// desired.
pub open spec fn realizes(o: Seq<ObservedEntity>, d: Seq<DesiredEntity>) -> bool {
    &&& unique_keys(o)
    &&& forall|k: Seq<char>| has_key(o, k) <==> has_key(d, k)
    &&& forall|j: int| 0 <= j < d.len() ==> fulfils(#[trigger] o[key_index(o, d[j].key())], d[j])
}

proof fn lemma_no_observed_ops(o: Seq<ObservedEntity>, d: Seq<DesiredEntity>, n: int)
    requires
        unique_keys(d),
        realizes(o, d),
        0 <= n <= o.len(),
    ensures
        observed_ops(o, d, n) == Seq::<ChangeOperation>::empty(),
    decreases n,
{
    if n > 0 {
        lemma_no_observed_ops(o, d, n - 1);
        let e = o[n - 1];
        assert(has_key(o, e.key()));
        let j = key_index(d, e.key());
        assert(d[j].key() == e.key());
        lemma_key_index(o, n - 1);
        assert(fulfils(o[key_index(o, d[j].key())], d[j]));
        assert(observed_op(e, d) =~= seq![]);
        assert(observed_ops(o, d, n) =~= seq![]);
    }
}

proof fn lemma_no_create_ops(o: Seq<ObservedEntity>, d: Seq<DesiredEntity>, n: int)
    requires
        realizes(o, d),
        0 <= n <= d.len(),
    ensures
        create_ops(o, d, n) == Seq::<ChangeOperation>::empty(),
    decreases n,
{
    if n > 0 {
        lemma_no_create_ops(o, d, n - 1);
        assert(has_key(d, d[n - 1].key()));
        assert(desired_op(d[n - 1], o) =~= seq![]);
        assert(create_ops(o, d, n) =~= seq![]);
    }
}

proof fn lemma_no_moves(o: Seq<ObservedEntity>, d: Seq<DesiredEntity>, n: int)
    requires
        realizes(o, d),
        0 <= n <= d.len(),
    ensures
        move_ops(o, d, n) == Seq::<ChangeOperation>::empty(),
    decreases n,
{
    if n > 0 {
        lemma_no_moves(o, d, n - 1);
        let t = d[n - 1];
        assert(has_key(d, t.key()));
        let i = key_index(o, t.key());
        assert(o[i].key() == t.key());
        lemma_first_index_unique(o, i);
        assert(fulfils(o[key_index(o, d[n - 1].key())], d[n - 1]));
        assert(target_move(o, t) =~= seq![]);
        assert(move_ops(o, d, n) =~= seq![]);
    }
}

/// Idempotence: once the remote side holds exactly what the desired set asks
/// for, reconciling it again with the same desired set finds nothing to
/// create, delete or update, and no channel to move.
pub proof fn law_reconcile_idempotent(o: Seq<ObservedEntity>, d: Seq<DesiredEntity>)
    requires
        unique_keys(d),
        realizes(o, d),
    ensures
        diff_ops(o, d) == Seq::<ChangeOperation>::empty(),
        move_ops(o, d, d.len() as int) == Seq::<ChangeOperation>::empty(),
{
    lemma_no_observed_ops(o, d, o.len() as int);
    lemma_no_create_ops(o, d, d.len() as int);
    lemma_no_moves(o, d, d.len() as int);
    assert(diff_ops(o, d) =~= seq![]);
}

} // verus!
