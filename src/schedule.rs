//! The scheduler: which tenants a tick reconciles, and the loop of one task
//! type that runs them one after another.
//!
//! Timers and remote work happen outside: on each timer fire the caller asks
//! the loop whether to run, then takes tenants from it one at a time and
//! reports how each pass ended.

use vstd::prelude::*;

use crate::pass::TenantConfig;

verus! {

/// A stored channel-container row of a tenant.
pub struct ContainerRow {
    pub guild_id: u64,
    pub container_id: u64,
}

/// A stored membership-system row of a tenant.
pub struct GuildSettings {
    pub guild_id: u64,
    pub system_id: String,
    pub token: Option<String>,
}

/// Some settings row of `s` is for tenant `g`.
pub open spec fn has_settings(s: Seq<GuildSettings>, g: u64) -> bool {
    exists|i: int| 0 <= i < s.len() && #[trigger] s[i].guild_id == g
}

/// The first settings row of `s` for tenant `g`.
#[verifier::opaque]
pub open spec fn settings_index(s: Seq<GuildSettings>, g: u64) -> int {
    choose|i: int|
        0 <= i < s.len() && s[i].guild_id == g && forall|j: int| 0 <= j < i ==> #[trigger] s[j].guild_id != g
}

/// The tenants of the first `n` container rows that also have settings, in
/// row order, each with its container and the first settings row for it.
pub open spec fn joined(c: Seq<ContainerRow>, s: Seq<GuildSettings>, n: int) -> Seq<TenantConfig>
    decreases n,
{
    if n <= 0 {
        seq![]
    } else if has_settings(s, c[n - 1].guild_id) {
        let gs = s[settings_index(s, c[n - 1].guild_id)];
        joined(c, s, n - 1).push(
            TenantConfig {
                guild_id: c[n - 1].guild_id,
                container_id: Some(c[n - 1].container_id),
                system_id: Some(gs.system_id),
                token: gs.token,
            },
        )
    } else {
        joined(c, s, n - 1)
    }
}

fn find_settings(s: &Vec<GuildSettings>, g: u64) -> (r: Option<usize>)
    ensures
        match r {
            Some(i) => i < s@.len() && s@[i as int].guild_id == g && i == settings_index(s@, g),
            None => !has_settings(s@, g),
        },
{
    let n = s.len();
    for i in 0..n
        invariant
            n == s@.len(),
            forall|j: int| 0 <= j < i ==> #[trigger] s@[j].guild_id != g,
    {
        if s[i].guild_id == g {
            proof {
                reveal(settings_index);
                let f = settings_index(s@, g);
                assert(0 <= i < s@.len() && s@[i as int].guild_id == g && forall|j: int|
                    0 <= j < i ==> #[trigger] s@[j].guild_id != g);
                if f < i {
                    assert(s@[f].guild_id != g);
                } else if f > i {
                    assert(s@[i as int].guild_id != g);
                }
            }
            return Some(i);
        }
    }
    None
}

/// The tenants a tick reconciles: those with both a container and a
/// membership system. A tenant with a container and no settings is skipped.
pub fn tenants_to_reconcile(containers: &Vec<ContainerRow>, settings: &Vec<GuildSettings>) -> (r: Vec<
    TenantConfig,
>)
    ensures
        r@ == joined(containers@, settings@, containers@.len() as int),
{
    let mut out: Vec<TenantConfig> = Vec::new();
    let n = containers.len();
    for i in 0..n
        invariant
            n == containers@.len(),
            out@ == joined(containers@, settings@, i as int),
    {
        let row = &containers[i];
        match find_settings(settings, row.guild_id) {
            Some(j) => {
                let gs = &settings[j];
                let token = match &gs.token {
                    Some(t) => Some(t.clone()),
                    None => None,
                };
                out.push(
                    TenantConfig {
                        guild_id: row.guild_id,
                        container_id: Some(row.container_id),
                        system_id: Some(gs.system_id.clone()),
                        token,
                    },
                );
            },
            None => {},
        }
    }
    out
}

/// The tenant that a settings row describes, for a task that needs no container.
pub open spec fn settings_tenant(gs: GuildSettings) -> TenantConfig {
    TenantConfig { guild_id: gs.guild_id, container_id: None, system_id: Some(gs.system_id), token: gs.token }
}

/// The tenants a role tick reconciles: one for each settings row, in row order.
pub fn role_tenants(settings: &Vec<GuildSettings>) -> (r: Vec<TenantConfig>)
    ensures
        r@ == settings@.map_values(|gs: GuildSettings| settings_tenant(gs)),
{
    let mut out: Vec<TenantConfig> = Vec::new();
    let n = settings.len();
    for i in 0..n
        invariant
            n == settings@.len(),
            out@ == settings@.subrange(0, i as int).map_values(|gs: GuildSettings| settings_tenant(gs)),
    {
        let gs = &settings[i];
        let token = match &gs.token {
            Some(t) => Some(t.clone()),
            None => None,
        };
        out.push(TenantConfig { guild_id: gs.guild_id, container_id: None, system_id: Some(gs.system_id.clone()), token });
        assert(out@ =~= settings@.subrange(0, i + 1).map_values(|gs: GuildSettings| settings_tenant(gs)));
    }
    assert(settings@.subrange(0, n as int) =~= settings@);
    out
}

/// What to do when the timer of a task type fires.
#[derive(PartialEq, Eq, Structural, Clone, Copy, Debug)]
pub enum TickDecision {
    /// Start a tick over the given tenants.
    Run,
    /// The previous tick is still running: this fire is dropped, not queued.
    Skip,
}

/// The state of a task loop.
pub struct LoopView {
    pub running: bool,
    /// The tenants of the current tick, in order.
    pub tenants: Seq<TenantConfig>,
    /// The index of the next tenant to reconcile.
    pub next: int,
    /// The tenants of the current tick whose pass failed, in order.
    pub failed: Seq<u64>,
}

/// The loop of one task type: idle, or running one tick over its tenants in turn.
pub struct TaskLoop {
    running: bool,
    tenants: Vec<TenantConfig>,
    next: usize,
    failed: Vec<u64>,
}

impl View for TaskLoop {
    type V = LoopView;

    closed spec fn view(&self) -> LoopView {
        LoopView { running: self.running, tenants: self.tenants@, next: self.next as int, failed: self.failed@ }
    }
}

impl TenantConfig {
    pub fn duplicate(&self) -> (r: Self)
        ensures
            r == *self,
    {
        let system_id = match &self.system_id {
            Some(s) => Some(s.clone()),
            None => None,
        };
        let token = match &self.token {
            Some(t) => Some(t.clone()),
            None => None,
        };
        TenantConfig { guild_id: self.guild_id, container_id: self.container_id, system_id, token }
    }
}

impl TaskLoop {
    pub closed spec fn wf(&self) -> bool {
        self.next <= self.tenants@.len()
    }

    /// An idle loop.
    pub fn new() -> (r: Self)
        ensures
            r.wf(),
            !r@.running,
            r@.next == 0,
            r@.tenants == Seq::<TenantConfig>::empty(),
            r@.failed == Seq::<u64>::empty(),
    {
        TaskLoop { running: false, tenants: Vec::new(), next: 0, failed: Vec::new() }
    }

    /// The timer fired with these tenants: an idle loop starts a tick over
    /// them; a running one skips the fire and goes on with its tick.
    pub fn on_timer(&mut self, tenants: Vec<TenantConfig>) -> (r: TickDecision)
        requires
            old(self).wf(),
        ensures
            final(self).wf(),
            old(self)@.running ==> r == TickDecision::Skip && final(self)@ == old(self)@,
            !old(self)@.running ==> r == TickDecision::Run && final(self)@ == (LoopView {
                running: true,
                tenants: tenants@,
                next: 0,
                failed: Seq::<u64>::empty(),
            }),
    {
        if self.running {
            TickDecision::Skip
        } else {
            self.running = true;
            self.tenants = tenants;
            self.next = 0;
            self.failed = Vec::new();
            proof {
                assert(self@.failed =~= Seq::<u64>::empty());
            }
            TickDecision::Run
        }
    }

    /// The next tenant of the tick. When none is left the tick ends and the
    /// loop is idle again.
    pub fn next_tenant(&mut self) -> (r: Option<TenantConfig>)
        requires
            old(self).wf(),
        ensures
            final(self).wf(),
            old(self)@.running && old(self)@.next < old(self)@.tenants.len() ==> r == Some(
                old(self)@.tenants[old(self)@.next],
            ) && final(self)@ == old(self)@,
            old(self)@.running && old(self)@.next >= old(self)@.tenants.len() ==> r is None
                && final(self)@ == (LoopView { running: false, ..old(self)@ }),
            !old(self)@.running ==> r is None && final(self)@ == old(self)@,
    {
        if !self.running {
            None
        } else if self.next < self.tenants.len() {
            Some(self.tenants[self.next].duplicate())
        } else {
            self.running = false;
            None
        }
    }

    /// The pass of the current tenant ended; the tick goes on with the next
    /// tenant whether it succeeded or not.
    pub fn finish_tenant(&mut self, succeeded: bool)
        requires
            old(self).wf(),
            old(self)@.running,
            old(self)@.next < old(self)@.tenants.len(),
        ensures
            final(self).wf(),
            final(self)@ == (LoopView {
                next: old(self)@.next + 1,
                failed: if succeeded {
                    old(self)@.failed
                } else {
                    old(self)@.failed.push(old(self)@.tenants[old(self)@.next].guild_id)
                },
                ..old(self)@
            }),
    {
        let len = self.tenants.len();
        assert(self.next < len);
        if !succeeded {
            let g = self.tenants[self.next].guild_id;
            self.failed.push(g);
        }
        self.next = self.next + 1;
    }

    /// The tenants of the current or last tick whose pass failed.
    pub fn failed(&self) -> (r: &Vec<u64>)
        ensures
            r@ == self@.failed,
    {
        &self.failed
    }
}

/// The tenants whose pass is running, so that a manual pass and a scheduled
/// one never run over the same tenant at once.
pub struct PassLeases {
    held: Vec<u64>,
}

impl View for PassLeases {
    type V = Set<u64>;

    closed spec fn view(&self) -> Set<u64> {
        Set::new(|g: u64| self.held@.contains(g))
    }
}

impl PassLeases {
    /// No tenant is leased.
    pub fn new() -> (r: Self)
        ensures
            r@ == Set::<u64>::empty(),
    {
        let r = PassLeases { held: Vec::new() };
        assert(r@ =~= Set::<u64>::empty());
        r
    }

    /// Takes the lease of a tenant if nobody holds it; says whether it did.
    pub fn acquire(&mut self, guild_id: u64) -> (r: bool)
        ensures
            r == !old(self)@.contains(guild_id),
            final(self)@ == old(self)@.insert(guild_id),
    {
        let n = self.held.len();
        for i in 0..n
            invariant
                n == self.held@.len(),
                self@ == old(self)@,
                forall|j: int| 0 <= j < i ==> #[trigger] self.held@[j] != guild_id,
        {
            if self.held[i] == guild_id {
                assert(self@ =~= old(self)@.insert(guild_id));
                return false;
            }
        }
        self.held.push(guild_id);
        proof {
            assert forall|g: u64| #[trigger] self.held@.contains(g) <==> old(self).held@.contains(g) || g == guild_id by {
                if self.held@.contains(g) {
                    let j = choose|j: int| 0 <= j < self.held@.len() && self.held@[j] == g;
                    if j < n {
                        assert(old(self).held@[j] == g);
                    }
                }
                if old(self).held@.contains(g) {
                    let j = choose|j: int| 0 <= j < n && old(self).held@[j] == g;
                    assert(self.held@[j] == g);
                }
                if g == guild_id {
                    assert(self.held@[n as int] == g);
                }
            }
            assert(self@ =~= old(self)@.insert(guild_id));
        }
        true
    }

    /// Gives up the lease of a tenant.
    pub fn release(&mut self, guild_id: u64)
        ensures
            final(self)@ == old(self)@.remove(guild_id),
    {
        let mut kept: Vec<u64> = Vec::new();
        let n = self.held.len();
        for i in 0..n
            invariant
                n == self.held@.len(),
                self@ == old(self)@,
                forall|g: u64|
                    #[trigger] kept@.contains(g) <==> g != guild_id && exists|j: int|
                        0 <= j < i && self.held@[j] == g,
        {
            let g = self.held[i];
            let ghost before = kept@;
            if g != guild_id {
                kept.push(g);
            }
            proof {
                assert forall|h: u64|
                    #[trigger] kept@.contains(h) <==> h != guild_id && exists|j: int|
                        0 <= j < i + 1 && self.held@[j] == h by {
                    assert(kept@.contains(h) <==> before.contains(h) || (g != guild_id && h == g)) by {
                        if g != guild_id {
                            assert(kept@ == before.push(g));
                            if kept@.contains(h) {
                                let k = choose|k: int| 0 <= k < kept@.len() && kept@[k] == h;
                                if k < before.len() {
                                    assert(before[k] == h);
                                }
                            }
                            if before.contains(h) {
                                let k = choose|k: int| 0 <= k < before.len() && before[k] == h;
                                assert(kept@[k] == h);
                            }
                            if h == g {
                                assert(kept@[before.len() as int] == h);
                            }
                        }
                    }
                    if h != guild_id && exists|j: int| 0 <= j < i + 1 && self.held@[j] == h {
                        let j = choose|j: int| 0 <= j < i + 1 && self.held@[j] == h;
                        if j < i {
                            assert(exists|j: int| 0 <= j < i && self.held@[j] == h);
                        }
                    }
                    if before.contains(h) {
                        assert(h != guild_id && exists|j: int| 0 <= j < i && self.held@[j] == h);
                        let j = choose|j: int| 0 <= j < i && self.held@[j] == h;
                        assert(0 <= j < i + 1 && self.held@[j] == h);
                    }
                    if g != guild_id && h == g {
                        assert(0 <= i < i + 1 && self.held@[i as int] == h);
                    }
                }
            }
        }
        self.held = kept;
        proof {
            assert(self@ =~= old(self)@.remove(guild_id));
        }
    }
}

} // verus!
