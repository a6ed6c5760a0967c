//! The plays that set up groups, accounts and authorized keys.
use vstd::prelude::*;
use vstd::string::StringExecFns;
use crate::config::{role_group, user_views, Role, SSHUser, UserView};
use crate::model::{
    arg, task_views, AnsibleModule, AnsiblePlay, AnsibleTask, ArgView, ModuleView,
    PlayView, TaskView,
};
use crate::text::{join_strings, join_with};

verus! {

/// The module that gives members of group `g` sudo rights through a drop-in
/// sudoers file.
pub open spec fn sudo_file_module(g: Seq<char>) -> ModuleView {
    ModuleView {
        name: "lineinfile"@,
        args: seq![
            ("path"@, "/etc/sudoers.d/"@ + g),
            ("line"@, "%"@ + g + " ALL=(ALL:ALL) NOPASSWD: ALL"@),
            ("create"@, "true"@),
            ("validate"@, "visudo -cf %s"@),
        ],
    }
}

/// The play that creates the sudoer group on every host and grants it sudo.
pub open spec fn create_groups_play() -> PlayView {
    PlayView {
        name: "Create groups."@,
        hosts: "all"@,
        gather_facts: false,
        escalate: true,
        tasks: seq![
            TaskView {
                name: "Create sudoer group."@,
                module: ModuleView {
                    name: "group"@,
                    args: seq![("name"@, role_group(Role::Sudoer))],
                },
                ignore_errors: false,
            },
            TaskView {
                name: "Set sudo permissions for sudoers."@,
                module: sudo_file_module(role_group(Role::Sudoer)),
                ignore_errors: false,
            },
        ],
    }
}

/// The parameters of the account task of `u`: a super user is an alias of
/// the root identity (numeric id 0, not unique).
pub open spec fn account_args(u: UserView) -> Seq<ArgView> {
    if u.role == Role::SuperUser {
        seq![
            ("name"@, u.name),
            ("group"@, role_group(u.role)),
            ("non_unique"@, "true"@),
            ("uid"@, "0"@),
        ]
    } else {
        seq![("name"@, u.name), ("group"@, role_group(u.role))]
    }
}

/// The task that makes sure the account of `u` exists in its role's group.
pub open spec fn account_task(u: UserView) -> TaskView {
    TaskView {
        name: "Create account."@,
        module: ModuleView { name: "user"@, args: account_args(u) },
        ignore_errors: false,
    }
}

/// The desired state of the keys of a user with role `r`.
pub open spec fn key_state(r: Role) -> Seq<char> {
    if r == Role::Blocked {
        "absent"@
    } else {
        "present"@
    }
}

/// The task that makes the keys of `u` its only authorized keys, or, for a
/// blocked user, removes them and lets the run go on if that fails.
pub open spec fn key_task(u: UserView) -> TaskView {
    TaskView {
        name: "Authorize public key."@,
        module: ModuleView {
            name: "authorized_key"@,
            args: seq![
                ("user"@, u.name),
                ("key"@, join_with(u.pubkeys, "\n"@)),
                ("exclusive"@, "true"@),
                ("state"@, key_state(u.role)),
            ],
        },
        ignore_errors: u.role == Role::Blocked,
    }
}

pub open spec fn account_tasks(us: Seq<UserView>) -> Seq<TaskView> {
    us.map_values(|u: UserView| account_task(u))
}

pub open spec fn key_tasks(us: Seq<UserView>) -> Seq<TaskView> {
    us.map_values(|u: UserView| key_task(u))
}

/// A play run with privilege escalation and without fact gathering.
pub open spec fn play_of(name: Seq<char>, hosts: Seq<char>, tasks: Seq<TaskView>) -> PlayView {
    PlayView { name, hosts, gather_facts: false, escalate: true, tasks }
}

/// The account-assurance play of a group of users on `hosts`.
pub open spec fn accounts_play(hosts: Seq<char>, us: Seq<UserView>) -> PlayView {
    play_of("Create accounts."@, hosts, account_tasks(us))
}

/// The key-authorization play of a group of users on `hosts`.
pub open spec fn pubkeys_play(hosts: Seq<char>, us: Seq<UserView>) -> PlayView {
    play_of("Authorize keys."@, hosts, key_tasks(us))
}

fn sudo_file(group: &String) -> (r: AnsibleModule)
    ensures
        r@ == sudo_file_module(group@),
{
    let mut path = String::from_str("/etc/sudoers.d/");
    path.append(group.as_str());
    let mut line = String::from_str("%");
    line.append(group.as_str());
    line.append(" ALL=(ALL:ALL) NOPASSWD: ALL");
    let args = vec![
        arg("path", path),
        arg("line", line),
        arg("create", String::from_str("true")),
        arg("validate", String::from_str("visudo -cf %s")),
    ];
    let r = AnsibleModule { name: String::from_str("lineinfile"), args };
    assert(r@.args =~= sudo_file_module(group@).args);
    r
}

fn account_task_of(user: &SSHUser) -> (r: AnsibleTask)
    ensures
        r@ == account_task(user@),
{
    let args = if user.role == Role::SuperUser {
        vec![
            arg("name", user.name.clone()),
            arg("group", user.role.group()),
            arg("non_unique", String::from_str("true")),
            arg("uid", String::from_str("0")),
        ]
    } else {
        vec![arg("name", user.name.clone()), arg("group", user.role.group())]
    };
    let r = AnsibleTask {
        name: String::from_str("Create account."),
        module: AnsibleModule { name: String::from_str("user"), args },
        ignore_errors: false,
    };
    assert(r@.module.args =~= account_args(user@));
    r
}

fn key_task_of(user: &SSHUser) -> (r: AnsibleTask)
    ensures
        r@ == key_task(user@),
{
    let blocked = user.role == Role::Blocked;
    let state = if blocked {
        String::from_str("absent")
    } else {
        String::from_str("present")
    };
    let args = vec![
        arg("user", user.name.clone()),
        arg("key", join_strings(&user.pubkeys, "\n")),
        arg("exclusive", String::from_str("true")),
        arg("state", state),
    ];
    let r = AnsibleTask {
        name: String::from_str("Authorize public key."),
        module: AnsibleModule { name: String::from_str("authorized_key"), args },
        ignore_errors: blocked,
    };
    assert(r@.module.args =~= key_task(user@).module.args);
    r
}

impl AnsiblePlay {
    /// The play that creates the sudoer group on all hosts and grants it sudo.
    pub fn create_groups() -> (r: Self)
        ensures
            r@ == create_groups_play(),
    {
        let sudoers = Role::Sudoer.group();
        let t1 = AnsibleTask {
            name: String::from_str("Create sudoer group."),
            module: AnsibleModule {
                name: String::from_str("group"),
                args: vec![arg("name", Role::Sudoer.group())],
            },
            ignore_errors: false,
        };
        let t2 = AnsibleTask {
            name: String::from_str("Set sudo permissions for sudoers."),
            module: sudo_file(&sudoers),
            ignore_errors: false,
        };
        assert(t1@.module.args =~= seq![("name"@, role_group(Role::Sudoer))]);
        let r = AnsiblePlay {
            name: String::from_str("Create groups."),
            hosts: String::from_str("all"),
            gather_facts: false,
            escalate: true,
            tasks: vec![t1, t2],
        };
        assert(r@.tasks =~= create_groups_play().tasks);
        r
    }

    /// The play that creates the account of `user` on the hosts its access
    /// pattern selects.
    pub fn create_user(user: &SSHUser) -> (r: Self)
        ensures
            r@ == play_of(
                "Create accounts for "@ + user@.name + "."@,
                user@.access,
                seq![account_task(user@)],
            ),
    {
        let mut name = String::from_str("Create accounts for ");
        name.append(user.name.as_str());
        name.append(".");
        let r = AnsiblePlay {
            name,
            hosts: user.access.clone(),
            gather_facts: false,
            escalate: true,
            tasks: vec![account_task_of(user)],
        };
        assert(r@.tasks =~= seq![account_task(user@)]);
        r
    }

    /// The play that authorizes the keys of `user` on the hosts its access
    /// pattern selects; for a blocked user it revokes them instead.
    pub fn authorize_keys(user: &SSHUser) -> (r: Self)
        ensures
            r@ == play_of(
                "Authorize keys for "@ + user@.name + "."@,
                user@.access,
                seq![key_task(user@)],
            ),
    {
        let mut name = String::from_str("Authorize keys for ");
        name.append(user.name.as_str());
        name.append(".");
        let r = AnsiblePlay {
            name,
            hosts: user.access.clone(),
            gather_facts: false,
            escalate: true,
            tasks: vec![key_task_of(user)],
        };
        assert(r@.tasks =~= seq![key_task(user@)]);
        r
    }

    /// The account-assurance play of `users` on the host selector `hosts`.
    pub fn set_accounts(hosts: &String, users: &Vec<SSHUser>) -> (r: Self)
        ensures
            r@ == accounts_play(hosts@, user_views(users@)),
    {
        let mut tasks: Vec<AnsibleTask> = Vec::new();
        let mut i: usize = 0;
        while i < users.len()
            invariant
                i <= users.len(),
                task_views(tasks@) =~= account_tasks(user_views(users@.take(i as int))),
            decreases users.len() - i,
        {
            let t = account_task_of(&users[i]);
            let ghost prev = tasks@;
            tasks.push(t);
            assert(users@.take(i + 1) =~= users@.take(i as int).push(users@[i as int]));
            assert(task_views(tasks@) =~= task_views(prev).push(t@));
            assert(account_tasks(user_views(users@.take(i + 1))) =~= account_tasks(
                user_views(users@.take(i as int)),
            ).push(account_task(users@[i as int]@)));
            i = i + 1;
        }
        assert(users@.take(i as int) =~= users@);
        AnsiblePlay {
            name: String::from_str("Create accounts."),
            hosts: hosts.clone(),
            gather_facts: false,
            escalate: true,
            tasks,
        }
    }

    /// The key-authorization play of `users` on the host selector `hosts`.
    pub fn set_user_pubkeys(hosts: &String, users: &Vec<SSHUser>) -> (r: Self)
        ensures
            r@ == pubkeys_play(hosts@, user_views(users@)),
    {
        let mut tasks: Vec<AnsibleTask> = Vec::new();
        let mut i: usize = 0;
        while i < users.len()
            invariant
                i <= users.len(),
                task_views(tasks@) =~= key_tasks(user_views(users@.take(i as int))),
            decreases users.len() - i,
        {
            let t = key_task_of(&users[i]);
            let ghost prev = tasks@;
            tasks.push(t);
            assert(users@.take(i + 1) =~= users@.take(i as int).push(users@[i as int]));
            assert(task_views(tasks@) =~= task_views(prev).push(t@));
            assert(key_tasks(user_views(users@.take(i + 1))) =~= key_tasks(
                user_views(users@.take(i as int)),
            ).push(key_task(users@[i as int]@)));
            i = i + 1;
        }
        assert(users@.take(i as int) =~= users@);
        AnsiblePlay {
            name: String::from_str("Authorize keys."),
            hosts: hosts.clone(),
            gather_facts: false,
            escalate: true,
            tasks,
        }
    }
}

} // verus!
