//! The manifest: users, their roles, and the configuration built from them.
use vstd::prelude::*;
use vstd::string::StringExecFns;
use crate::grouping::{
    compute_groups, group_views, ints, key_of, lemma_key_bounds, reach_views, valid_grouping,
    GroupView, Reach,
};
use crate::inventory::{pattern_hosts, EntryView, Inventory};
use crate::model::{play_views, AnsiblePlay, PlayView};
use crate::plays::{accounts_play, create_groups_play, pubkeys_play};
use crate::text::{
    copy_strings, join_strings, join_with, lemma_lt_irreflexive, lemma_lt_transitive,
    seq_lt, str_less, views,
};

verus! {

/// What a user may do on the hosts they reach. `Blocked` revokes access.
#[derive(Debug, Clone, Copy, PartialEq, Eq, Structural, Hash, PartialOrd, Ord)]
pub enum Role {
    User,
    Sudoer,
    SuperUser,
    Blocked,
}

/// The OS group that backs each role.
pub open spec fn role_group(r: Role) -> Seq<char> {
    match r {
        Role::User => "users"@,
        Role::Sudoer => "sudoers"@,
        Role::SuperUser => "root"@,
        Role::Blocked => "users"@,
    }
}

impl Role {
    /// The OS group that backs this role.
    pub fn group(&self) -> (r: String)
        ensures
            r@ == role_group(*self),
    {
        match self {
            Role::User => String::from_str("users"),
            Role::Sudoer => String::from_str("sudoers"),
            Role::SuperUser => String::from_str("root"),
            Role::Blocked => String::from_str("users"),
        }
    }
}

/// A user of the manifest.
#[derive(Debug)]
pub struct SSHUser {
    pub name: String,
    pub pubkeys: Vec<String>,
    pub access: String,
    pub role: Role,
}

pub struct UserView {
    pub name: Seq<char>,
    pub pubkeys: Seq<Seq<char>>,
    pub access: Seq<char>,
    pub role: Role,
}

impl View for SSHUser {
    type V = UserView;

    open spec fn view(&self) -> UserView {
        UserView {
            name: self.name@,
            pubkeys: views(self.pubkeys@),
            access: self.access@,
            role: self.role,
        }
    }
}

pub open spec fn user_views(v: Seq<SSHUser>) -> Seq<UserView> {
    v.map_values(|u: SSHUser| u@)
}

impl SSHUser {
    /// A user from its fields.
    pub fn new(name: String, pubkeys: Vec<String>, access: String, role: Role) -> (r: SSHUser)
        ensures
            r.name == name,
            r.pubkeys == pubkeys,
            r.access == access,
            r.role == role,
    {
        SSHUser { name, pubkeys, access, role }
    }

    /// A copy of this user.
    pub fn duplicate(&self) -> (r: SSHUser)
        ensures
            r@ == self@,
    {
        SSHUser {
            name: self.name.clone(),
            pubkeys: copy_strings(&self.pubkeys),
            access: self.access.clone(),
            role: self.role,
        }
    }
}

/// Whether some entry after the first of `list` has the first entry's name.
pub open spec fn overridden(list: Seq<UserView>) -> bool {
    exists|j: int| 0 < j < list.len() && #[trigger] list[j].name == list[0].name
}

/// The entries of `list` that no later entry with the same name replaces,
/// in the order of `list`.
pub open spec fn latest_entries(list: Seq<UserView>) -> Seq<UserView>
    decreases list.len(),
{
    if list.len() == 0 {
        Seq::empty()
    } else if overridden(list) {
        latest_entries(list.drop_first())
    } else {
        seq![list[0]] + latest_entries(list.drop_first())
    }
}

/// Names in ascending order: no user's name comes before the name of a user
/// ahead of it.
pub open spec fn names_ordered(s: Seq<UserView>) -> bool {
    forall|a: int, b: int| 0 <= a < b < s.len() ==> !seq_lt(#[trigger] s[b].name, #[trigger] s[a].name)
}

proof fn lemma_insert_ordered(s: Seq<UserView>, p: int, x: UserView)
    requires
        names_ordered(s),
        0 <= p <= s.len(),
        forall|k: int| 0 <= k < p ==> !seq_lt(x.name, #[trigger] s[k].name),
        p < s.len() ==> seq_lt(x.name, s[p].name),
    ensures
        names_ordered(s.insert(p, x)),
{
    let s2 = s.insert(p, x);
    assert forall|a: int, b: int| 0 <= a < b < s2.len() implies !seq_lt(
        #[trigger] s2[b].name,
        #[trigger] s2[a].name,
    ) by {
        if b == p {
            assert(s2[a] == s[a]);
        } else if a == p {
            assert(s2[b] == s[b - 1]);
            if seq_lt(s[b - 1].name, x.name) {
                lemma_lt_transitive(s[b - 1].name, x.name, s[p].name);
                if b - 1 == p {
                    lemma_lt_irreflexive(s[p].name);
                }
            }
        } else if b < p {
            assert(s2[a] == s[a]);
            assert(s2[b] == s[b]);
        } else if a < p {
            assert(s2[a] == s[a]);
            assert(s2[b] == s[b - 1]);
        } else {
            assert(s2[a] == s[a - 1]);
            assert(s2[b] == s[b - 1]);
        }
    }
}

/// The users of `v`, ordered by name.
fn sort_by_name(v: Vec<SSHUser>) -> (r: Vec<SSHUser>)
    ensures
        names_ordered(user_views(r@)),
        user_views(r@).to_multiset() == user_views(v@).to_multiset(),
{
    let ghost vv = user_views(v@);
    let mut out: Vec<SSHUser> = Vec::new();
    let mut i: usize = 0;
    assert(vv.take(0) =~= Seq::<UserView>::empty());
    assert(user_views(out@) =~= Seq::<UserView>::empty());
    while i < v.len()
        invariant
            i <= v.len(),
            vv == user_views(v@),
            names_ordered(user_views(out@)),
            user_views(out@).to_multiset() == vv.take(i as int).to_multiset(),
        decreases v.len() - i,
    {
        let x = v[i].duplicate();
        let ghost ov = user_views(out@);
        let mut p: usize = 0;
        while p < out.len() && !str_less(&x.name, &out[p].name)
            invariant
                p <= out.len(),
                ov == user_views(out@),
                forall|k: int| 0 <= k < p ==> !seq_lt(x@.name, #[trigger] ov[k].name),
            decreases out.len() - p,
        {
            p = p + 1;
        }
        let ghost xv = x@;
        proof {
            lemma_insert_ordered(ov, p as int, xv);
        }
        out.insert(p, x);
        assert(user_views(out@) =~= ov.insert(p as int, xv));
        assert(vv.take(i + 1) =~= vv.take(i as int).push(xv));
        proof {
            vstd::seq_lib::to_multiset_insert(ov, p as int, xv);
            vstd::seq_lib::to_multiset_build(vv.take(i as int), xv);
        }
        i = i + 1;
    }
    assert(vv.take(i as int) =~= vv);
    out
}

/// For each user, by index, the hosts that the inventory selects for its
/// access pattern.
pub open spec fn config_reach(us: Seq<UserView>, inv: Seq<EntryView>) -> Reach {
    us.map_values(|u: UserView| pattern_hosts(inv, u.access))
}

/// The users at the indices of `key`, in the order of `key`.
pub open spec fn members(us: Seq<UserView>, key: Seq<int>) -> Seq<UserView> {
    key.map_values(|i: int| us[i])
}

/// The account-assurance play, then the key-authorization play, of each
/// group in turn, each on the colon-joined hosts of its group.
pub open spec fn group_plays(us: Seq<UserView>, gs: Seq<GroupView>) -> Seq<PlayView>
    decreases gs.len(),
{
    if gs.len() == 0 {
        Seq::empty()
    } else {
        let g = gs.last();
        let hosts = join_with(g.1, ":"@);
        group_plays(us, gs.drop_last()).push(accounts_play(hosts, members(us, g.0))).push(
            pubkeys_play(hosts, members(us, g.0)),
        )
    }
}

/// The compiled playbook: the group-creation play, then the plays of each
/// group.
pub open spec fn compiled(us: Seq<UserView>, gs: Seq<GroupView>) -> Seq<PlayView> {
    seq![create_groups_play()] + group_plays(us, gs)
}

/// The manifest's users, one per name, ordered by name.
pub struct SSHConfig {
    users: Vec<SSHUser>,
}

impl View for SSHConfig {
    type V = Seq<UserView>;

    closed spec fn view(&self) -> Seq<UserView> {
        user_views(self.users@)
    }
}

impl SSHConfig {
    /// The configuration of a list of users, ordered by name. Where two
    /// entries share a name, the later one is kept.
    pub fn from_users(list: Vec<SSHUser>) -> (r: SSHConfig)
        ensures
            names_ordered(r@),
            r@.to_multiset() == latest_entries(user_views(list@)).to_multiset(),
    {
        let ghost l = user_views(list@);
        let mut s: Vec<SSHUser> = Vec::new();
        let mut i: usize = 0;
        assert(l.skip(0) =~= l);
        while i < list.len()
            invariant
                i <= list.len(),
                l == user_views(list@),
                user_views(s@) + latest_entries(l.skip(i as int)) == latest_entries(l),
            decreases list.len() - i,
        {
            let ghost rest = l.skip(i as int);
            assert(rest.drop_first() =~= l.skip(i + 1));
            let mut j: usize = i + 1;
            let mut later = false;
            while j < list.len()
                invariant
                    i < j <= list.len(),
                    l == user_views(list@),
                    rest == l.skip(i as int),
                    later == exists|k: int| i < k < j && #[trigger] l[k].name == l[i as int].name,
                decreases list.len() - j,
            {
                assert(l[j as int] == list@[j as int]@);
                assert(l[i as int] == list@[i as int]@);
                if list[j].name == list[i].name {
                    later = true;
                    assert(l[j as int].name == l[i as int].name);
                }
                j = j + 1;
            }
            assert(later == overridden(rest)) by {
                if later {
                    let k = choose|k: int| i < k < j && #[trigger] l[k].name == l[i as int].name;
                    assert(rest[k - i].name == rest[0].name);
                }
                if overridden(rest) {
                    let k = choose|k: int| 0 < k < rest.len() && #[trigger] rest[k].name == rest[0].name;
                    assert(l[k + i].name == l[i as int].name);
                }
            }
            if !later {
                let ghost prev = user_views(s@);
                s.push(list[i].duplicate());
                assert(user_views(s@) =~= prev.push(l[i as int]));
                assert(seq![l[i as int]] + latest_entries(l.skip(i + 1)) == latest_entries(rest));
                assert(user_views(s@) + latest_entries(l.skip(i + 1)) =~= prev + (seq![
                    l[i as int],
                ] + latest_entries(l.skip(i + 1))));
            }
            i = i + 1;
        }
        assert(l.skip(i as int) =~= Seq::<UserView>::empty());
        assert(user_views(s@) =~= user_views(s@) + latest_entries(l.skip(i as int)));
        SSHConfig { users: sort_by_name(s) }
    }

    /// The users, ordered by name.
    pub fn users(&self) -> (r: &Vec<SSHUser>)
        ensures
            user_views(r@) == self@,
    {
        &self.users
    }

    /// The playbook that applies this configuration to the inventory `inv`:
    /// hosts are grouped by the exact set of users permitted on them, and
    /// each group gets its account and key plays.
    pub fn apply(&self, inv: &Inventory) -> (r: Vec<AnsiblePlay>)
        ensures
            exists|gs: Seq<GroupView>|
                valid_grouping(config_reach(self@, inv@), gs) && play_views(r@) == compiled(
                    self@,
                    gs,
                ),
    {
        let ghost us = self@;
        let ghost rv = config_reach(us, inv@);
        let mut reach: Vec<Vec<String>> = Vec::new();
        let mut i: usize = 0;
        while i < self.users.len()
            invariant
                i <= self.users.len(),
                us == user_views(self.users@),
                rv == config_reach(us, inv@),
                reach_views(reach@) =~= rv.take(i as int),
            decreases self.users.len() - i,
        {
            let hs = inv.get_pattern_hosts(&self.users[i].access);
            assert(us[i as int].access == self.users@[i as int].access@);
            assert(rv[i as int] == views(hs@));
            let ghost prev = reach@;
            reach.push(hs);
            assert(reach_views(reach@) =~= reach_views(prev).push(views(hs@)));
            assert(rv.take(i + 1) =~= rv.take(i as int).push(rv[i as int]));
            i = i + 1;
        }
        assert(rv.take(i as int) =~= rv);
        let gs = compute_groups(&reach);
        let ghost gv = group_views(gs@);
        let mut plays: Vec<AnsiblePlay> = vec![AnsiblePlay::create_groups()];
        let mut g: usize = 0;
        assert(gv.take(0) =~= Seq::<GroupView>::empty());
        assert(play_views(plays@) =~= compiled(us, gv.take(0)));
        while g < gs.len()
            invariant
                g <= gs.len(),
                us == user_views(self.users@),
                gv == group_views(gs@),
                valid_grouping(rv, gv),
                rv.len() == self.users.len(),
                play_views(plays@) == compiled(us, gv.take(g as int)),
            decreases gs.len() - g,
        {
            let hosts = join_strings(&gs[g].1, ":");
            let key = &gs[g].0;
            proof {
                let h = gv[g as int].1[0];
                assert(key_of(rv, h) == gv[g as int].0);
                lemma_key_bounds(rv, h, rv.len() as int);
            }
            let mut ms: Vec<SSHUser> = Vec::new();
            let mut j: usize = 0;
            while j < key.len()
                invariant
                    j <= key.len(),
                    g < gs.len(),
                    us == user_views(self.users@),
                    ints(key@) == gv[g as int].0,
                    forall|x: int| 0 <= x < key.len() ==> 0 <= #[trigger] ints(key@)[x] < rv.len(),
                    rv.len() == self.users.len(),
                    user_views(ms@) =~= members(us, ints(key@).take(j as int)),
                decreases key.len() - j,
            {
                assert(ints(key@)[j as int] == key@[j as int] as int);
                let u = self.users[key[j]].duplicate();
                assert(u@ == us[ints(key@)[j as int]]);
                let ghost prev = user_views(ms@);
                ms.push(u);
                assert(user_views(ms@) =~= prev.push(u@));
                assert(ints(key@).take(j + 1) =~= ints(key@).take(j as int).push(ints(key@)[j as int]));
                assert(members(us, ints(key@).take(j + 1)) =~= members(us, ints(key@).take(j as int)).push(
                    us[ints(key@)[j as int]],
                ));
                j = j + 1;
            }
            assert(ints(key@).take(j as int) =~= ints(key@));
            let ghost prev = play_views(plays@);
            plays.push(AnsiblePlay::set_accounts(&hosts, &ms));
            plays.push(AnsiblePlay::set_user_pubkeys(&hosts, &ms));
            assert(gv.take(g + 1).drop_last() =~= gv.take(g as int));
            assert(gv.take(g + 1).last() == gv[g as int]);
            assert(hosts@ == join_with(gv[g as int].1, ":"@));
            assert(user_views(ms@) == members(us, gv[g as int].0));
            assert(group_plays(us, gv.take(g + 1)) == group_plays(us, gv.take(g as int)).push(
                accounts_play(hosts@, user_views(ms@)),
            ).push(pubkeys_play(hosts@, user_views(ms@))));
            assert(play_views(plays@) =~= prev.push(accounts_play(hosts@, user_views(ms@))).push(
                pubkeys_play(hosts@, user_views(ms@)),
            ));
            assert(play_views(plays@) =~= compiled(us, gv.take(g + 1)));
            g = g + 1;
        }
        assert(gv.take(g as int) =~= gv);
        plays
    }
}

} // verus!
