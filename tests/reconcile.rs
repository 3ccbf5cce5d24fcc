use dmserv::apply::{summary, ApplySession, Outcome};
use dmserv::diff::{diff, ChangeOperation};
use dmserv::entity::{collapse, DesiredEntity, ObservedEntity};
use dmserv::error::{MissingConfig, PassError};
use dmserv::member::{desired_channels, desired_roles, is_member_role, member_name, member_roles, role_name, Member};
use dmserv::pass::{
    channel_target, channels_in, failure_message, plan_channel_pass, plan_role_pass, system_access,
    RemoteChannel, TenantConfig,
};
use dmserv::position::{assign_positions, plan_moves, MAX_POSITIONS};

fn channel(id: u64, name: &str, position: u16) -> ObservedEntity {
    ObservedEntity { id, name: name.to_string(), color: None, position }
}

fn role(id: u64, name: &str, color: u32) -> ObservedEntity {
    ObservedEntity { id, name: name.to_string(), color: Some(color), position: 0 }
}

fn wanted(name: &str) -> DesiredEntity {
    DesiredEntity { name: name.to_string(), color: None, position: None }
}

fn wanted_role(name: &str, color: u32) -> DesiredEntity {
    DesiredEntity { name: name.to_string(), color: Some(color), position: None }
}

fn member(name: &str, display: Option<&str>, color: Option<&str>) -> Member {
    Member {
        name: name.to_string(),
        display_name: display.map(|d| d.to_string()),
        color: color.map(|c| c.to_string()),
    }
}

fn names_of(ops: &[ChangeOperation], pick: fn(&ChangeOperation) -> Option<&String>) -> Vec<String> {
    let mut v: Vec<String> = ops.iter().filter_map(pick).cloned().collect();
    v.sort();
    v
}

fn create_name(op: &ChangeOperation) -> Option<&String> {
    match op {
        ChangeOperation::Create { name, .. } => Some(name),
        _ => None,
    }
}

fn delete_name(op: &ChangeOperation) -> Option<&String> {
    match op {
        ChangeOperation::Delete { name, .. } => Some(name),
        _ => None,
    }
}

fn update_name(op: &ChangeOperation) -> Option<&String> {
    match op {
        ChangeOperation::Update { name, .. } => Some(name),
        _ => None,
    }
}

/// Runs a session to its end, answering each operation from `answer`.
fn run(mut s: ApplySession, mut answer: impl FnMut(&ChangeOperation) -> Outcome) -> (Vec<ChangeOperation>, dmserv::apply::ApplyReport) {
    let mut seen = Vec::new();
    while let Some(op) = s.next_op() {
        let out = answer(&op);
        seen.push(op);
        s.record(out);
    }
    (seen, s.finish())
}

#[test]
fn diff_classifies_every_name_once() {
    let o = vec![role(1, "A", 1), role(2, "B", 2), role(3, "C", 3)];
    let d = vec![wanted_role("B", 2), wanted_role("C", 9), wanted_role("D", 4)];
    let ops = diff(&o, &d);
    assert_eq!(names_of(&ops, create_name), vec!["D".to_string()]);
    assert_eq!(names_of(&ops, delete_name), vec!["A".to_string()]);
    assert_eq!(names_of(&ops, update_name), vec!["C".to_string()]);
    assert_eq!(ops.len(), 3);
}

#[test]
fn diff_ignores_input_order() {
    let o1 = vec![role(1, "A", 1), role(2, "B", 2), role(3, "C", 3)];
    let o2 = vec![role(3, "C", 3), role(1, "A", 1), role(2, "B", 2)];
    let d1 = vec![wanted_role("B", 5), wanted_role("D", 4), wanted_role("E", 6)];
    let d2 = vec![wanted_role("E", 6), wanted_role("B", 5), wanted_role("D", 4)];
    let a = diff(&o1, &d1);
    let b = diff(&o2, &d2);
    for pick in [create_name, delete_name, update_name] {
        assert_eq!(names_of(&a, pick), names_of(&b, pick));
    }
}

#[test]
fn positions_are_contiguous() {
    let d = vec![wanted("x"), wanted("y"), wanted("z")];
    let placed = match assign_positions(&d) {
        Ok(p) => p,
        Err(_) => panic!("three channels fit"),
    };
    let mut positions: Vec<u16> = placed.iter().map(|e| e.position.unwrap()).collect();
    assert_eq!(positions, vec![0, 1, 2]);
    positions.sort();
    assert_eq!(positions, vec![0, 1, 2]);
    assert_eq!(placed[1].name, "y");
    assert!(matches!(assign_positions(&Vec::new()), Ok(v) if v.is_empty()));
}

#[test]
fn too_many_channels_overflow() {
    let d: Vec<DesiredEntity> = (0..MAX_POSITIONS + 1).map(|i| wanted(&format!("m{}", i))).collect();
    assert!(matches!(assign_positions(&d), Err(PassError::PositionOverflow(n)) if n == 65537));
    let fits: Vec<DesiredEntity> = (0..MAX_POSITIONS).map(|i| wanted(&format!("m{}", i))).collect();
    match assign_positions(&fits) {
        Ok(p) => assert_eq!(p[MAX_POSITIONS - 1].position, Some(65535)),
        Err(_) => panic!("65536 channels fit"),
    }
    assert!(matches!(plan_channel_pass(&Vec::new(), &d), Err(PassError::PositionOverflow(65537))));
}

#[test]
fn failures_do_not_stop_the_pass() {
    let o = vec![channel(1, "A", 0), channel(2, "B", 1), channel(3, "C", 2)];
    let d = vec![wanted("D"), wanted("E")];
    let s = plan_channel_pass(&o, &d).ok().unwrap();
    let mut n = 0;
    let (seen, report) = run(s, |op| {
        n += 1;
        if n == 1 || n == 4 {
            Outcome::Failed(format!("refused {}", n))
        } else {
            match op {
                ChangeOperation::Create { name, position, .. } => Outcome::Created(ObservedEntity {
                    id: 100 + n,
                    name: name.clone(),
                    color: None,
                    position: position.unwrap(),
                }),
                _ => Outcome::Applied,
            }
        }
    });
    assert_eq!(seen.len(), 5);
    assert_eq!(report.failures.len(), 2);
    assert_eq!(report.failures[0].error, "refused 1");
    assert!(matches!(&report.failures[0].op, ChangeOperation::Delete { id: 1, .. }));
    assert!(matches!(&report.failures[1].op, ChangeOperation::Create { name, .. } if name == "D"));
    assert_eq!(report.deleted, 2);
    assert_eq!(report.created, 1);
    assert_eq!(report.updated, 0);
    assert_eq!(summary(&report), "1 created, 2 deleted, 0 updated");
}

#[test]
fn operations_run_deletes_then_creates_then_updates() {
    let o = vec![role(1, "Keep (Alter)", 1), role(2, "Old (Alter)", 2)];
    let d = vec![wanted_role("New (Alter)", 3), wanted_role("Keep (Alter)", 7)];
    let s = plan_role_pass(&o, &d);
    let (seen, report) = run(s, |_| Outcome::Applied);
    assert!(matches!(&seen[0], ChangeOperation::Delete { id: 2, .. }));
    assert!(matches!(&seen[1], ChangeOperation::Create { name, color: Some(3), .. } if name == "New (Alter)"));
    assert!(matches!(&seen[2], ChangeOperation::Update { id: 1, color: 7, .. }));
    assert_eq!(seen.len(), 3);
    assert_eq!(summary(&report), "1 created, 1 deleted, 1 updated");
}

#[test]
fn second_pass_finds_nothing_to_do() {
    let o = vec![channel(1, "Alice", 0), channel(2, "Bob", 1)];
    let d = vec![wanted("Bob"), wanted("Carol")];
    let s = plan_channel_pass(&o, &d).ok().unwrap();
    let mut remote: Vec<ObservedEntity> = o.clone_entities();
    let mut next_id = 10;
    let (_, _) = run(s, |op| match op {
        ChangeOperation::Delete { id, .. } => {
            remote.retain(|c| c.id != *id);
            Outcome::Applied
        }
        ChangeOperation::Create { name, position, .. } => {
            next_id += 1;
            let c = channel(next_id, name, position.unwrap());
            remote.push(channel(c.id, &c.name, c.position));
            Outcome::Created(c)
        }
        ChangeOperation::Move { id, index, .. } => {
            for c in remote.iter_mut() {
                if c.id == *id {
                    c.position = *index;
                }
            }
            Outcome::Applied
        }
        ChangeOperation::Update { .. } => Outcome::Applied,
    });
    let again = plan_channel_pass(&remote, &d).ok().unwrap();
    let (seen, report) = run(again, |_| Outcome::Applied);
    assert!(seen.is_empty());
    assert_eq!(summary(&report), "0 created, 0 deleted, 0 updated");
}

trait CloneEntities {
    fn clone_entities(&self) -> Vec<ObservedEntity>;
}

impl CloneEntities for Vec<ObservedEntity> {
    fn clone_entities(&self) -> Vec<ObservedEntity> {
        self.iter().map(|c| ObservedEntity { id: c.id, name: c.name.clone(), color: c.color, position: c.position }).collect()
    }
}

#[test]
fn scenario_channels_alice_bob_carol() {
    let o = vec![channel(1, "Alice", 0), channel(2, "Bob", 1)];
    let d = vec![wanted("Bob"), wanted("Carol")];
    let s = plan_channel_pass(&o, &d).ok().unwrap();
    let (seen, report) = run(s, |op| match op {
        ChangeOperation::Create { name, position, .. } => Outcome::Created(channel(3, name, position.unwrap())),
        _ => Outcome::Applied,
    });
    assert_eq!(seen.len(), 3);
    assert!(matches!(&seen[0], ChangeOperation::Delete { id: 1, name } if name == "Alice"));
    assert!(matches!(&seen[1], ChangeOperation::Create { name, position: Some(1), color: None } if name == "Carol"));
    assert!(matches!(&seen[2], ChangeOperation::Move { id: 2, name, index: 0 } if name == "Bob"));
    assert_eq!(report.created, 1);
    assert_eq!(report.deleted, 1);
    assert_eq!(report.updated, 1);
}

#[test]
fn scenario_role_color_update() {
    let o = vec![role(7, "Sam (Alter)", 0x112233)];
    let d = vec![wanted_role("Sam (Alter)", 0x445566)];
    let s = plan_role_pass(&o, &d);
    let (seen, _) = run(s, |_| Outcome::Applied);
    assert_eq!(seen.len(), 1);
    assert!(matches!(&seen[0], ChangeOperation::Update { id: 7, name, color: 0x445566 } if name == "Sam (Alter)"));
}

#[test]
fn scenario_missing_container() {
    let cfg = TenantConfig { guild_id: 5, container_id: None, system_id: Some("abcde".to_string()), token: None };
    assert!(matches!(channel_target(&cfg), Err(PassError::ConfigMissing(MissingConfig::Container))));
    assert_eq!(
        failure_message(&PassError::ConfigMissing(MissingConfig::Container)),
        "fronter category not set-up, please run /setup-fronters"
    );
}

#[test]
fn missing_system_and_anonymous_access() {
    let cfg = TenantConfig { guild_id: 5, container_id: Some(9), system_id: None, token: None };
    assert!(matches!(channel_target(&cfg), Err(PassError::ConfigMissing(MissingConfig::MembershipSystem))));
    assert_eq!(
        failure_message(&PassError::ConfigMissing(MissingConfig::MembershipSystem)),
        "PluralKit module not set-up, please run /setup-pk"
    );
    assert_eq!(
        failure_message(&PassError::Fetch("timeout".to_string())),
        "reconciliation failed, please try again later"
    );
    let ok = TenantConfig { guild_id: 5, container_id: Some(9), system_id: Some("abcde".to_string()), token: None };
    let t = channel_target(&ok).ok().unwrap();
    assert_eq!((t.guild_id, t.container_id), (5, 9));
    assert_eq!(t.access.system_id, "abcde");
    assert_eq!(t.access.token, "");
    let with_token = TenantConfig { token: Some("tok".to_string()), ..ok };
    assert_eq!(system_access(&with_token).ok().unwrap().token, "tok");
}

#[test]
fn duplicate_names_last_one_wins() {
    let d = vec![wanted_role("a", 1), wanted_role("b", 2), wanted_role("a", 3)];
    let c = collapse(&d);
    assert_eq!(c.len(), 2);
    assert_eq!((c[0].name.as_str(), c[0].color), ("b", Some(2)));
    assert_eq!((c[1].name.as_str(), c[1].color), ("a", Some(3)));
    let placed = assign_positions(&c).ok().unwrap();
    assert_eq!(placed[1].position, Some(1));
}

#[test]
fn moves_only_misplaced_channels() {
    let current = vec![channel(1, "a", 0), channel(2, "b", 5)];
    let targets = assign_positions(&vec![wanted("a"), wanted("b"), wanted("c")]).ok().unwrap();
    let moves = plan_moves(&current, &targets);
    assert_eq!(moves.len(), 1);
    assert!(matches!(&moves[0], ChangeOperation::Move { id: 2, index: 1, .. }));
}

#[test]
fn member_projection() {
    let m1 = member("Sam", Some("Sammy (she/her)"), Some("#445566"));
    let m2 = member("Alex (they/them) (x)", None, None);
    assert_eq!(member_name(&m1), "Sammy (she/her)");
    assert_eq!(member_name(&m2), "Alex (they/them) (x)");
    let roles = desired_roles(&vec![m1, m2]);
    assert_eq!(roles[0].name, "Sammy (Alter)");
    assert_eq!(roles[0].color, Some(0x445566));
    assert_eq!(roles[1].name, "Alex (Alter)");
    assert_eq!(roles[1].color, Some(0x99AAB5));
    let chans = desired_channels(&vec![member("Kim", None, None), member("Jo", Some("Joey"), None)]);
    assert_eq!(chans[0].name, "Kim");
    assert_eq!(chans[1].name, "Joey");
    assert_eq!(chans[1].color, None);
}

#[test]
fn role_names() {
    assert_eq!(role_name(&"Sam".to_string()), "Sam (Alter)");
    assert_eq!(role_name(&"Sam (she/her)".to_string()), "Sam (Alter)");
    assert_eq!(role_name(&"".to_string()), " (Alter)");
    assert_eq!(role_name(&" (x)".to_string()), " (Alter)");
    assert_eq!(role_name(&"a(b) c (d)".to_string()), "a(b) c (Alter)");
    assert_eq!(role_name(&"Zoë ".to_string()), "Zoë  (Alter)");
    assert!(is_member_role(&"Sam (Alter)".to_string()));
    assert!(is_member_role(&" (Alter)".to_string()));
    assert!(!is_member_role(&"(Alter)".to_string()));
    assert!(!is_member_role(&"Sam (alter)".to_string()));
    let all = vec![role(1, "Sam (Alter)", 1), role(2, "Moderator", 2), role(3, "Kim (Alter)", 3)];
    let mine = member_roles(&all);
    assert_eq!(mine.iter().map(|r| r.id).collect::<Vec<_>>(), vec![1, 3]);
}

#[test]
fn role_pass_leaves_other_roles_alone() {
    let all = vec![role(1, "Sam (Alter)", 1), role(2, "Moderator", 2)];
    let d = vec![wanted_role("Kim (Alter)", 3)];
    let (seen, _) = run(plan_role_pass(&all, &d), |_| Outcome::Applied);
    assert_eq!(seen.len(), 2);
    assert!(matches!(&seen[0], ChangeOperation::Delete { id: 1, .. }));
    assert!(matches!(&seen[1], ChangeOperation::Create { name, .. } if name == "Kim (Alter)"));
}

#[test]
fn category_children() {
    let cs = vec![
        RemoteChannel { id: 1, name: "a".to_string(), parent_id: Some(9), position: 3, is_category: false },
        RemoteChannel { id: 2, name: "b".to_string(), parent_id: None, position: 0, is_category: false },
        RemoteChannel { id: 3, name: "c".to_string(), parent_id: Some(8), position: 1, is_category: false },
        RemoteChannel { id: 4, name: "d".to_string(), parent_id: Some(9), position: 0, is_category: false },
    ];
    let kids = channels_in(&cs, 9);
    assert_eq!(kids.iter().map(|c| (c.id, c.position)).collect::<Vec<_>>(), vec![(1, 3), (4, 0)]);
}
