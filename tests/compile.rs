use sshplay::config::{Role, SSHConfig, SSHUser};
use sshplay::error::{InvalidConfigError, UndefinedSectionError};
use sshplay::inventory::Inventory;
use sshplay::model::{AnsiblePlay, AnsibleTask};
use sshplay::text::{join_strings, str_less};

fn user(name: &str, keys: &[&str], access: &str, role: Role) -> SSHUser {
    SSHUser::new(
        name.to_string(),
        keys.iter().map(|k| k.to_string()).collect(),
        access.to_string(),
        role,
    )
}

fn hosts(names: &[&str]) -> Vec<String> {
    names.iter().map(|h| h.to_string()).collect()
}

fn arg_of<'a>(task: &'a AnsibleTask, key: &str) -> Option<&'a str> {
    task.module.args.iter().find(|(k, _)| k == key).map(|(_, v)| v.as_str())
}

fn web_inventory() -> Inventory {
    let mut inv = Inventory::new();
    inv.add_pattern("web*".to_string(), hosts(&["web1", "web2"]));
    inv
}

#[test]
fn one_group_for_shared_pattern() {
    let cfg = SSHConfig::from_users(vec![
        user("alice", &["ssh-ed25519 AAA alice"], "web*", Role::User),
        user("bob", &["ssh-ed25519 BBB bob"], "web*", Role::Sudoer),
    ]);
    let plays = cfg.apply(&web_inventory());
    assert_eq!(plays.len(), 3);
    assert_eq!(plays[0].name, "Create groups.");
    assert_eq!(plays[0].hosts, "all");
    assert_eq!(plays[1].name, "Create accounts.");
    assert_eq!(plays[1].hosts, "web1:web2");
    assert_eq!(plays[2].name, "Authorize keys.");
    assert_eq!(plays[2].hosts, "web1:web2");
    let names: Vec<&str> = plays[1].tasks.iter().map(|t| arg_of(t, "name").unwrap()).collect();
    assert_eq!(names, vec!["alice", "bob"]);
    let key_users: Vec<&str> = plays[2].tasks.iter().map(|t| arg_of(t, "user").unwrap()).collect();
    assert_eq!(key_users, vec!["alice", "bob"]);
    assert_eq!(arg_of(&plays[1].tasks[1], "group"), Some("sudoers"));
    assert_eq!(arg_of(&plays[1].tasks[0], "group"), Some("users"));
}

#[test]
fn unmatched_pattern_gives_no_group() {
    let cfg = SSHConfig::from_users(vec![user("carol", &["k"], "db*", Role::User)]);
    let plays = cfg.apply(&web_inventory());
    assert_eq!(plays.len(), 1);
    assert_eq!(plays[0].name, "Create groups.");
}

#[test]
fn empty_manifest_gives_only_group_setup() {
    let cfg = SSHConfig::from_users(Vec::new());
    let plays = cfg.apply(&web_inventory());
    assert_eq!(plays.len(), 1);
}

#[test]
fn hosts_split_by_user_set() {
    let mut inv = web_inventory();
    inv.add_pattern("web1".to_string(), hosts(&["web1"]));
    let cfg = SSHConfig::from_users(vec![
        user("alice", &["a"], "web*", Role::User),
        user("bob", &["b"], "web1", Role::User),
    ]);
    let plays = cfg.apply(&inv);
    assert_eq!(plays.len(), 5);
    let mut groups: Vec<(String, Vec<String>)> = Vec::new();
    for k in 0..2 {
        let acc = &plays[1 + 2 * k];
        let keys = &plays[2 + 2 * k];
        assert_eq!(acc.name, "Create accounts.");
        assert_eq!(keys.name, "Authorize keys.");
        assert_eq!(acc.hosts, keys.hosts);
        let names = acc.tasks.iter().map(|t| arg_of(t, "name").unwrap().to_string()).collect();
        groups.push((acc.hosts.clone(), names));
    }
    groups.sort();
    assert_eq!(groups[0], ("web1".to_string(), vec!["alice".to_string(), "bob".to_string()]));
    assert_eq!(groups[1], ("web2".to_string(), vec!["alice".to_string()]));
}

#[test]
fn later_entry_with_same_name_wins() {
    let cfg = SSHConfig::from_users(vec![
        user("alice", &["old"], "web*", Role::User),
        user("alice", &["new"], "web*", Role::Sudoer),
    ]);
    assert_eq!(cfg.users().len(), 1);
    assert_eq!(cfg.users()[0].pubkeys, vec!["new".to_string()]);
    let plays = cfg.apply(&web_inventory());
    assert_eq!(plays.len(), 3);
    assert_eq!(plays[1].tasks.len(), 1);
    assert_eq!(arg_of(&plays[1].tasks[0], "group"), Some("sudoers"));
    assert_eq!(arg_of(&plays[2].tasks[0], "key"), Some("new"));
}

#[test]
fn superuser_aliases_root() {
    let u = user("root2", &["k"], "web*", Role::SuperUser);
    let play = AnsiblePlay::create_user(&u);
    assert_eq!(play.name, "Create accounts for root2.");
    assert_eq!(play.hosts, "web*");
    let t = &play.tasks[0];
    assert_eq!(t.module.name, "user");
    assert_eq!(arg_of(t, "non_unique"), Some("true"));
    assert_eq!(arg_of(t, "uid"), Some("0"));
    assert_eq!(arg_of(t, "group"), Some("root"));
    let plain = AnsiblePlay::create_user(&user("dave", &["k"], "web*", Role::Sudoer));
    assert_eq!(arg_of(&plain.tasks[0], "uid"), None);
    assert_eq!(arg_of(&plain.tasks[0], "non_unique"), None);
}

#[test]
fn blocked_user_keys_are_revoked() {
    let u = user("eve", &["k1", "k2"], "web*", Role::Blocked);
    let play = AnsiblePlay::authorize_keys(&u);
    assert_eq!(play.name, "Authorize keys for eve.");
    let t = &play.tasks[0];
    assert_eq!(t.module.name, "authorized_key");
    assert_eq!(arg_of(t, "state"), Some("absent"));
    assert_eq!(arg_of(t, "key"), Some("k1\nk2"));
    assert_eq!(arg_of(t, "exclusive"), Some("true"));
    assert!(t.ignore_errors);
    let ok = AnsiblePlay::authorize_keys(&user("fay", &["k"], "web*", Role::User));
    assert_eq!(arg_of(&ok.tasks[0], "state"), Some("present"));
    assert!(!ok.tasks[0].ignore_errors);
}

#[test]
fn group_setup_play() {
    let play = AnsiblePlay::create_groups();
    assert!(!play.gather_facts);
    assert!(play.escalate);
    assert_eq!(play.tasks.len(), 2);
    assert_eq!(play.tasks[0].module.name, "group");
    assert_eq!(arg_of(&play.tasks[0], "name"), Some("sudoers"));
    assert_eq!(play.tasks[1].module.name, "lineinfile");
    assert_eq!(arg_of(&play.tasks[1], "path"), Some("/etc/sudoers.d/sudoers"));
    assert_eq!(
        arg_of(&play.tasks[1], "line"),
        Some("%sudoers ALL=(ALL:ALL) NOPASSWD: ALL")
    );
}

#[test]
fn inventory_first_match_and_miss() {
    let mut inv = web_inventory();
    inv.add_pattern("web*".to_string(), hosts(&["other"]));
    assert_eq!(inv.get_pattern_hosts(&"web*".to_string()), hosts(&["web1", "web2"]));
    assert!(inv.get_pattern_hosts(&"db".to_string()).is_empty());
}

#[test]
fn role_groups() {
    assert_eq!(Role::User.group(), "users");
    assert_eq!(Role::Sudoer.group(), "sudoers");
    assert_eq!(Role::SuperUser.group(), "root");
    assert_eq!(Role::Blocked.group(), "users");
}

#[test]
fn error_messages() {
    let e = InvalidConfigError::from_str("missing field `name`");
    assert_eq!(e.message, "missing field `name`");
    assert_eq!(e.describe(), "Invalid SSH config file; missing field `name`");
    let u = UndefinedSectionError { name: "users".to_string() };
    assert_eq!(u.describe(), "Undefined section: users");
}

#[test]
fn text_helpers() {
    assert!(str_less(&"alice".to_string(), &"bob".to_string()));
    assert!(str_less(&"al".to_string(), &"alice".to_string()));
    assert!(!str_less(&"bob".to_string(), &"bob".to_string()));
    assert!(!str_less(&"bob".to_string(), &"alice".to_string()));
    assert!(!str_less(&"".to_string(), &"".to_string()));
    assert_eq!(join_strings(&hosts(&["a", "b", "c"]), ":"), "a:b:c");
    assert_eq!(join_strings(&hosts(&[]), ":"), "");
}

fn summary(plays: &[AnsiblePlay]) -> Vec<(String, String, Vec<String>)> {
    plays
        .iter()
        .map(|p| {
            let users = p
                .tasks
                .iter()
                .map(|t| arg_of(t, "name").or(arg_of(t, "user")).unwrap_or("").to_string())
                .collect();
            (p.name.clone(), p.hosts.clone(), users)
        })
        .collect()
}

#[test]
fn group_users_sorted_by_name() {
    let cfg = SSHConfig::from_users(vec![
        user("bob", &["b"], "web*", Role::Sudoer),
        user("alice", &["a"], "web*", Role::User),
    ]);
    let plays = cfg.apply(&web_inventory());
    assert_eq!(plays.len(), 3);
    let names: Vec<&str> = plays[1].tasks.iter().map(|t| arg_of(t, "name").unwrap()).collect();
    assert_eq!(names, vec!["alice", "bob"]);
}

#[test]
fn declaration_order_does_not_matter() {
    let mut inv = web_inventory();
    inv.add_pattern("web2".to_string(), hosts(&["web2"]));
    inv.add_pattern("db".to_string(), hosts(&["db1", "db2"]));
    let a = vec![
        user("carol", &["c"], "db", Role::SuperUser),
        user("alice", &["a"], "web*", Role::User),
        user("bob", &["b"], "web2", Role::Blocked),
    ];
    let b = vec![
        user("bob", &["b"], "web2", Role::Blocked),
        user("carol", &["c"], "db", Role::SuperUser),
        user("alice", &["a"], "web*", Role::User),
    ];
    let pa = SSHConfig::from_users(a).apply(&inv);
    let pb = SSHConfig::from_users(b).apply(&inv);
    assert_eq!(pa.len(), 7);
    assert_eq!(summary(&pa), summary(&pb));
}
