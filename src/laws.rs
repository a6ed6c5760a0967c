//! Properties of the compiled playbook that hold for every manifest and
//! inventory.
use vstd::prelude::*;
use crate::config::{compiled, latest_entries, members, names_ordered, overridden, Role, UserView};
use crate::grouping::{grouped, key_of, key_upto, reached, valid_grouping, GroupView, Reach};
use crate::plays::{account_args, accounts_play, key_task, pubkeys_play};
use crate::text::{join_with, lemma_lt_total, seq_lt};

verus! {

/// The hosts that appear in the groups are exactly the hosts that some
/// user's access pattern selects.
pub proof fn lemma_hosts_covered(reach: Reach, gs: Seq<GroupView>)
    requires
        valid_grouping(reach, gs),
    ensures
        Set::new(|h: Seq<char>| grouped(gs, h)) == Set::new(|h: Seq<char>| reached(reach, h)),
{
    assert forall|h: Seq<char>| grouped(gs, h) implies reached(reach, h) by {
        let (g, k) = choose|g: int, k: int|
            0 <= g < gs.len() && 0 <= k < gs[g].1.len() && gs[g].1[k] == h;
        assert(reached(reach, gs[g].1[k]));
    }
    assert(Set::new(|h: Seq<char>| grouped(gs, h)) =~= Set::new(|h: Seq<char>| reached(reach, h)));
}

/// The groups partition the reached hosts: each reached host stands in a
/// group, and a host never stands twice, in one group or in two.
pub proof fn lemma_partition(reach: Reach, gs: Seq<GroupView>)
    requires
        valid_grouping(reach, gs),
    ensures
        forall|h: Seq<char>| reached(reach, h) ==> grouped(gs, h),
        forall|g1: int, k1: int, g2: int, k2: int|
            0 <= g1 < gs.len() && 0 <= k1 < gs[g1].1.len() && 0 <= g2 < gs.len() && 0 <= k2
                < gs[g2].1.len() && #[trigger] gs[g1].1[k1] == #[trigger] gs[g2].1[k2] ==> g1 == g2
                && k1 == k2,
{
    assert forall|g1: int, k1: int, g2: int, k2: int|
        0 <= g1 < gs.len() && 0 <= k1 < gs[g1].1.len() && 0 <= g2 < gs.len() && 0 <= k2
            < gs[g2].1.len() && #[trigger] gs[g1].1[k1] == #[trigger] gs[g2].1[k2] implies g1 == g2
        && k1 == k2 by {
        assert(key_of(reach, gs[g1].1[k1]) == gs[g1].0);
        assert(key_of(reach, gs[g2].1[k2]) == gs[g2].0);
        if g1 < g2 {
            assert(gs[g1].0 != gs[g2].0);
        } else if g2 < g1 {
            assert(gs[g2].0 != gs[g1].0);
        } else if k1 < k2 {
            assert(gs[g1].1[k1] != gs[g1].1[k2]);
        } else if k2 < k1 {
            assert(gs[g1].1[k2] != gs[g1].1[k1]);
        }
    }
}

/// A user index stands in the key of host `h` exactly when that user's
/// access pattern selects `h`: the key is the host's permitted-user set, in
/// ascending order, whatever order the users were examined in.
pub proof fn lemma_key_members(reach: Reach, h: Seq<char>, n: int)
    requires
        0 <= n <= reach.len(),
    ensures
        forall|i: int| #[trigger] key_upto(reach, h, n).contains(i) <==> 0 <= i < n && reach[i].contains(h),
        forall|a: int, b: int|
            0 <= a < b < key_upto(reach, h, n).len() ==> #[trigger] key_upto(reach, h, n)[a]
                < #[trigger] key_upto(reach, h, n)[b],
    decreases n,
{
    if n > 0 {
        lemma_key_members(reach, h, n - 1);
        let prev = key_upto(reach, h, n - 1);
        if reach[n - 1].contains(h) {
            assert forall|i: int| #[trigger] key_upto(reach, h, n).contains(i) <==> 0 <= i < n
                && reach[i].contains(h) by {
                if i == n - 1 {
                    assert(key_upto(reach, h, n)[prev.len() as int] == i);
                }
                if key_upto(reach, h, n).contains(i) && i != n - 1 {
                    let k = choose|k: int| 0 <= k < prev.len() + 1 && key_upto(reach, h, n)[k] == i;
                    assert(prev[k] == i);
                }
                if prev.contains(i) {
                    let k = choose|k: int| 0 <= k < prev.len() && prev[k] == i;
                    assert(key_upto(reach, h, n)[k] == i);
                }
            }
            assert forall|a: int, b: int|
                0 <= a < b < key_upto(reach, h, n).len() implies #[trigger] key_upto(reach, h, n)[a]
                < #[trigger] key_upto(reach, h, n)[b] by {
                if b == prev.len() {
                    assert(prev.contains(prev[a]));
                }
            }
        }
    } else {
        assert(key_upto(reach, h, n) =~= Seq::<int>::empty());
    }
}

/// The playbook holds the group-creation play, then for each group, in
/// order, its account-assurance play immediately followed by its
/// key-authorization play.
pub proof fn lemma_play_order(us: Seq<UserView>, gs: Seq<GroupView>)
    ensures
        compiled(us, gs).len() == 1 + 2 * gs.len(),
        forall|k: int|
            0 <= k < gs.len() ==> #[trigger] compiled(us, gs)[1 + 2 * k] == accounts_play(
                join_with(gs[k].1, ":"@),
                members(us, gs[k].0),
            ) && compiled(us, gs)[2 + 2 * k] == pubkeys_play(
                join_with(gs[k].1, ":"@),
                members(us, gs[k].0),
            ),
    decreases gs.len(),
{
    if gs.len() > 0 {
        lemma_play_order(us, gs.drop_last());
        let prev = compiled(us, gs.drop_last());
        assert(compiled(us, gs) =~= prev.push(
            accounts_play(join_with(gs.last().1, ":"@), members(us, gs.last().0)),
        ).push(pubkeys_play(join_with(gs.last().1, ":"@), members(us, gs.last().0))));
        assert forall|k: int| 0 <= k < gs.len() implies #[trigger] compiled(us, gs)[1 + 2 * k]
            == accounts_play(join_with(gs[k].1, ":"@), members(us, gs[k].0)) && compiled(
            us,
            gs,
        )[2 + 2 * k] == pubkeys_play(join_with(gs[k].1, ":"@), members(us, gs[k].0)) by {
            if k < gs.len() - 1 {
                assert(gs.drop_last()[k] == gs[k]);
                assert(prev[1 + 2 * k] == compiled(us, gs)[1 + 2 * k]);
            }
        }
    } else {
        assert(compiled(us, gs) =~= seq![crate::plays::create_groups_play()]);
    }
}

/// The account of a super user, and of no other role, is an alias of the
/// root identity: not unique, with numeric id 0.
pub proof fn lemma_superuser_alias(u: UserView)
    ensures
        (account_args(u).contains(("non_unique"@, "true"@)) && account_args(u).contains(
            ("uid"@, "0"@),
        )) <==> u.role == Role::SuperUser,
        u.role != Role::SuperUser ==> forall|k: int|
            0 <= k < account_args(u).len() ==> #[trigger] account_args(u)[k].0 != "uid"@
                && account_args(u)[k].0 != "non_unique"@,
{
    reveal_strlit("uid");
    reveal_strlit("non_unique");
    reveal_strlit("name");
    reveal_strlit("group");
    let a = account_args(u);
    if u.role == Role::SuperUser {
        assert(a[2] == ("non_unique"@, "true"@));
        assert(a[3] == ("uid"@, "0"@));
    } else {
        assert("uid"@.len() != "name"@.len());
        assert("uid"@[0] != "group"@[0]);
        assert("non_unique"@.len() != "name"@.len());
        assert("non_unique"@.len() != "group"@.len());
        assert forall|k: int| 0 <= k < a.len() implies #[trigger] a[k].0 != "uid"@ && a[k].0
            != "non_unique"@ by {}
        if a.contains(("uid"@, "0"@)) {
            let k = choose|k: int| 0 <= k < a.len() && a[k] == ("uid"@, "0"@);
            assert(a[k].0 != "uid"@);
        }
    }
}

/// A blocked user's key task removes the keys and lets the run go on past
/// its failure; every other role's task installs them and fails the run on
/// error.
pub proof fn lemma_blocked_revocation(u: UserView)
    ensures
        u.role == Role::Blocked ==> key_task(u).module.args[3] == ("state"@, "absent"@)
            && key_task(u).ignore_errors,
        u.role != Role::Blocked ==> key_task(u).module.args[3] == ("state"@, "present"@)
            && !key_task(u).ignore_errors,
{
}

/// No two users share a name.
pub open spec fn names_distinct(s: Seq<UserView>) -> bool {
    forall|a: int, b: int| 0 <= a < b < s.len() ==> #[trigger] s[a].name != #[trigger] s[b].name
}

proof fn lemma_latest_of_distinct(l: Seq<UserView>)
    requires
        names_distinct(l),
    ensures
        latest_entries(l) == l,
    decreases l.len(),
{
    if l.len() > 0 {
        let t = l.drop_first();
        assert(names_distinct(t)) by {
            assert forall|a: int, b: int| 0 <= a < b < t.len() implies #[trigger] t[a].name
                != #[trigger] t[b].name by {
                assert(l[a + 1].name != l[b + 1].name);
            }
        }
        assert(!overridden(l)) by {
            if overridden(l) {
                let j = choose|j: int| 0 < j < l.len() && #[trigger] l[j].name == l[0].name;
                assert(l[0].name != l[j].name);
            }
        }
        lemma_latest_of_distinct(t);
        assert(seq![l[0]] + t =~= l);
    }
}

proof fn lemma_distinct_transfer(a: Seq<UserView>, b: Seq<UserView>)
    requires
        a.to_multiset() == b.to_multiset(),
        names_distinct(a),
    ensures
        names_distinct(b),
{
    broadcast use vstd::seq_lib::group_to_multiset_ensures, vstd::multiset::group_multiset_axioms;

    assert(a.no_duplicates()) by {
        assert forall|i: int, j: int| 0 <= i < a.len() && 0 <= j < a.len() && i != j implies a[i]
            != a[j] by {
            if i < j {
                assert(a[i].name != a[j].name);
            } else {
                assert(a[j].name != a[i].name);
            }
        }
    }
    a.lemma_multiset_has_no_duplicates();
    assert forall|i: int, j: int| 0 <= i < j < b.len() implies #[trigger] b[i].name
        != #[trigger] b[j].name by {
        if b[i].name == b[j].name {
            assert(b.to_multiset().count(b[i]) > 0);
            assert(b.to_multiset().count(b[j]) > 0);
            assert(a.contains(b[i]));
            assert(a.contains(b[j]));
            let x = choose|x: int| 0 <= x < a.len() && a[x] == b[i];
            let y = choose|y: int| 0 <= y < a.len() && a[y] == b[j];
            if x < y {
                assert(a[x].name != a[y].name);
            } else if y < x {
                assert(a[y].name != a[x].name);
            }
            assert(b[i] == b[j]);
            let r = b.remove(j);
            assert(r[i] == b[i]);
            assert(r.contains(b[i]));
            assert(r.to_multiset().count(b[i]) > 0);
            assert(r.to_multiset() == b.to_multiset().remove(b[j]));
            assert(a.to_multiset().count(b[i]) == 1);
        }
    }
}

proof fn lemma_ordered_unique(a: Seq<UserView>, b: Seq<UserView>)
    requires
        a.to_multiset() == b.to_multiset(),
        names_ordered(a),
        names_ordered(b),
        names_distinct(a),
        names_distinct(b),
    ensures
        a == b,
    decreases a.len(),
{
    broadcast use vstd::seq_lib::group_to_multiset_ensures, vstd::multiset::group_multiset_axioms;

    assert(a.len() == b.len()) by {
        assert(a.len() == a.to_multiset().len());
        assert(b.len() == b.to_multiset().len());
    }
    if a.len() > 0 {
        assert(a.to_multiset().count(a[0]) > 0);
        assert(b.to_multiset().count(b[0]) > 0);
        let j = choose|j: int| 0 <= j < b.len() && b[j] == a[0];
        let i = choose|i: int| 0 <= i < a.len() && a[i] == b[0];
        if i > 0 {
            assert(!seq_lt(a[i].name, a[0].name));
        }
        if j > 0 {
            assert(!seq_lt(b[j].name, b[0].name));
        }
        lemma_lt_total(a[i].name, a[0].name);
        if i > 0 {
            assert(a[0].name != a[i].name);
        }
        assert(b[0] == a[0]);
        let ta = a.drop_first();
        let tb = b.drop_first();
        assert(a.remove(0) =~= ta);
        assert(b.remove(0) =~= tb);
        assert(ta.to_multiset() == tb.to_multiset());
        assert forall|x: int, y: int| 0 <= x < y < ta.len() implies !seq_lt(
            #[trigger] ta[y].name,
            #[trigger] ta[x].name,
        ) && ta[x].name != ta[y].name by {
            assert(!seq_lt(a[y + 1].name, a[x + 1].name));
            assert(a[x + 1].name != a[y + 1].name);
        }
        assert forall|x: int, y: int| 0 <= x < y < tb.len() implies !seq_lt(
            #[trigger] tb[y].name,
            #[trigger] tb[x].name,
        ) && tb[x].name != tb[y].name by {
            assert(!seq_lt(b[y + 1].name, b[x + 1].name));
            assert(b[x + 1].name != b[y + 1].name);
        }
        lemma_ordered_unique(ta, tb);
        assert forall|k: int| 0 <= k < a.len() implies a[k] == b[k] by {
            if k > 0 {
                assert(a[k] == ta[k - 1]);
                assert(b[k] == tb[k - 1]);
            }
        }
        assert(a =~= b);
    } else {
        assert(a =~= b);
    }
}

/// The order in which a manifest declares its users does not matter: two
/// manifests that list the same users with distinct names, in any order,
/// give the same configuration (the one `SSHConfig::from_users` states), and
/// so the same groups and plays.
pub proof fn lemma_declaration_order(
    l1: Seq<UserView>,
    l2: Seq<UserView>,
    s1: Seq<UserView>,
    s2: Seq<UserView>,
)
    requires
        l1.to_multiset() == l2.to_multiset(),
        names_distinct(l1),
        names_ordered(s1),
        s1.to_multiset() == latest_entries(l1).to_multiset(),
        names_ordered(s2),
        s2.to_multiset() == latest_entries(l2).to_multiset(),
    ensures
        s1 == s2,
{
    lemma_distinct_transfer(l1, l2);
    lemma_latest_of_distinct(l1);
    lemma_latest_of_distinct(l2);
    lemma_distinct_transfer(l1, s1);
    lemma_distinct_transfer(l1, s2);
    lemma_ordered_unique(s1, s2);
}

/// The users of a group come ordered by name: the key is ascending and the
/// configuration's users are ordered by name.
pub proof fn lemma_members_ordered(us: Seq<UserView>, reach: Reach, h: Seq<char>)
    requires
        names_ordered(us),
        reach.len() == us.len(),
    ensures
        names_ordered(members(us, key_of(reach, h))),
{
    let key = key_of(reach, h);
    lemma_key_members(reach, h, reach.len() as int);
    crate::grouping::lemma_key_bounds(reach, h, reach.len() as int);
    let m = members(us, key);
    assert forall|a: int, b: int| 0 <= a < b < m.len() implies !seq_lt(
        #[trigger] m[b].name,
        #[trigger] m[a].name,
    ) by {
        assert(key[a] < key[b]);
        assert(m[a] == us[key[a]]);
        assert(m[b] == us[key[b]]);
    }
}

} // verus!
