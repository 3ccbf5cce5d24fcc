use dmserv::pass::TenantConfig;
use dmserv::schedule::{role_tenants, PassLeases, tenants_to_reconcile, ContainerRow, GuildSettings, TaskLoop, TickDecision};
use dmserv::pass::RemoteChannel;
use dmserv::setup::{find_category, sanitize_system_id};
use dmserv::stats::{adjust_connected, uptime_secs, ConnectedChange, ShardStage, ShardStats};

fn tenant(guild_id: u64) -> TenantConfig {
    TenantConfig { guild_id, container_id: Some(guild_id * 10), system_id: Some("abc".to_string()), token: None }
}

#[test]
fn tenants_need_both_rows() {
    let rows = vec![
        ContainerRow { guild_id: 1, container_id: 10 },
        ContainerRow { guild_id: 2, container_id: 20 },
        ContainerRow { guild_id: 3, container_id: 30 },
    ];
    let settings = vec![
        GuildSettings { guild_id: 3, system_id: "ccc".to_string(), token: Some("t".to_string()) },
        GuildSettings { guild_id: 1, system_id: "aaa".to_string(), token: None },
        GuildSettings { guild_id: 3, system_id: "zzz".to_string(), token: None },
    ];
    let ts = tenants_to_reconcile(&rows, &settings);
    assert_eq!(ts.len(), 2);
    assert_eq!((ts[0].guild_id, ts[0].container_id), (1, Some(10)));
    assert_eq!(ts[0].system_id.as_deref(), Some("aaa"));
    assert_eq!((ts[1].guild_id, ts[1].container_id), (3, Some(30)));
    assert_eq!(ts[1].system_id.as_deref(), Some("ccc"));
    assert_eq!(ts[1].token.as_deref(), Some("t"));
}

#[test]
fn overlapping_ticks_are_skipped() {
    let mut l = TaskLoop::new();
    assert!(l.next_tenant().is_none());
    assert_eq!(l.on_timer(vec![tenant(1), tenant(2)]), TickDecision::Run);
    assert_eq!(l.on_timer(vec![tenant(9)]), TickDecision::Skip);
    let first = l.next_tenant().unwrap();
    assert_eq!(first.guild_id, 1);
    l.finish_tenant(false);
    let second = l.next_tenant().unwrap();
    assert_eq!(second.guild_id, 2);
    l.finish_tenant(true);
    assert!(l.next_tenant().is_none());
    assert_eq!(l.failed(), &vec![1]);
    assert_eq!(l.on_timer(vec![tenant(9)]), TickDecision::Run);
    assert_eq!(l.next_tenant().unwrap().guild_id, 9);
    assert!(l.failed().is_empty());
}

#[test]
fn shard_stage_changes() {
    let mut s = ShardStats::new(4, ShardStage::Connecting, 1_000);
    assert_eq!(s.ready_at, None);
    assert_eq!(s.on_stage_update(ShardStage::Connecting, ShardStage::Connected, 5_000), ConnectedChange::Up);
    assert_eq!((s.ready_at, s.restarts, s.stage), (Some(5_000), 0, ShardStage::Connected));
    assert_eq!(s.on_stage_update(ShardStage::Connected, ShardStage::Resuming, 9_000), ConnectedChange::Down);
    assert_eq!((s.ready_at, s.restarts), (None, 1));
    assert_eq!(s.on_stage_update(ShardStage::Resuming, ShardStage::Handshake, 9_500), ConnectedChange::Unchanged);
    let c = ShardStats::new(1, ShardStage::Connected, 77);
    assert_eq!(c.ready_at, Some(77));
    assert_eq!(adjust_connected(0, ConnectedChange::Down), 0);
    assert_eq!(adjust_connected(3, ConnectedChange::Up), 4);
    assert_eq!(adjust_connected(u32::MAX, ConnectedChange::Up), u32::MAX);
    assert_eq!(uptime_secs(Some(1_000), 62_999), 61);
    assert_eq!(uptime_secs(Some(62_999), 1_000), 61);
    assert_eq!(uptime_secs(None, 5), 0);
}

#[test]
fn system_ids_are_sanitised() {
    assert_eq!(sanitize_system_id("  ABC-de\t"), Ok("abcde".to_string()));
    assert_eq!(sanitize_system_id("ab1"), Err("ab1".to_string()));
    assert_eq!(sanitize_system_id(""), Ok(String::new()));
}

#[test]
fn category_found_ignoring_case() {
    let cs = vec![
        RemoteChannel { id: 1, name: "Current Fronters".to_string(), parent_id: None, position: 0, is_category: false },
        RemoteChannel { id: 2, name: "general".to_string(), parent_id: None, position: 1, is_category: true },
        RemoteChannel { id: 3, name: "CURRENT FRONTERS".to_string(), parent_id: None, position: 2, is_category: true },
        RemoteChannel { id: 4, name: "current fronters".to_string(), parent_id: None, position: 3, is_category: true },
    ];
    assert_eq!(find_category(&cs, "Current Fronters"), Some(3));
    assert_eq!(find_category(&cs, "voice"), None);
}

#[test]
fn role_ticks_cover_every_system() {
    let settings = vec![
        GuildSettings { guild_id: 3, system_id: "ccc".to_string(), token: Some("t".to_string()) },
        GuildSettings { guild_id: 1, system_id: "aaa".to_string(), token: None },
    ];
    let ts = role_tenants(&settings);
    assert_eq!(ts.len(), 2);
    assert_eq!((ts[0].guild_id, ts[0].container_id), (3, None));
    assert_eq!(ts[0].system_id.as_deref(), Some("ccc"));
    assert_eq!(ts[0].token.as_deref(), Some("t"));
    assert_eq!((ts[1].guild_id, ts[1].token.as_deref()), (1, None));
}

#[test]
fn one_pass_per_tenant_at_a_time() {
    let mut l = PassLeases::new();
    assert!(l.acquire(7));
    assert!(!l.acquire(7));
    assert!(l.acquire(8));
    l.release(7);
    assert!(l.acquire(7));
    assert!(!l.acquire(8));
    l.release(9);
    assert!(!l.acquire(7));
}
