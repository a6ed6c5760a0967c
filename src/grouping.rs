//! The grouping engine: hosts that share exactly the same permitted users
//! form one group.
use vstd::prelude::*;
use crate::text::{contains_string, views};

verus! {

/// For each user, by index, the hosts its access pattern selects.
pub type Reach = Seq<Seq<Seq<char>>>;

/// A group: its key (the indices of its users, ascending) and its hosts.
pub type GroupView = (Seq<int>, Seq<Seq<char>>);

pub open spec fn ints(v: Seq<usize>) -> Seq<int> {
    v.map_values(|x: usize| x as int)
}

pub open spec fn reach_views(v: Seq<Vec<String>>) -> Reach {
    v.map_values(|hs: Vec<String>| views(hs@))
}

pub open spec fn group_views(v: Seq<(Vec<usize>, Vec<String>)>) -> Seq<GroupView> {
    v.map_values(|g: (Vec<usize>, Vec<String>)| (ints(g.0@), views(g.1@)))
}

/// The indices below `n` of the users permitted on host `h`, ascending.
pub open spec fn key_upto(reach: Reach, h: Seq<char>, n: int) -> Seq<int>
    decreases n,
{
    if n <= 0 {
        Seq::empty()
    } else if reach[n - 1].contains(h) {
        key_upto(reach, h, n - 1).push(n - 1)
    } else {
        key_upto(reach, h, n - 1)
    }
}

/// Each index of `key_upto(reach, h, n)` lies below `n`.
pub proof fn lemma_key_bounds(reach: Reach, h: Seq<char>, n: int)
    ensures
        forall|j: int|
            0 <= j < key_upto(reach, h, n).len() ==> 0 <= #[trigger] key_upto(reach, h, n)[j] < n,
    decreases n,
{
    if n > 0 {
        lemma_key_bounds(reach, h, n - 1);
        let prev = key_upto(reach, h, n - 1);
        assert forall|j: int| 0 <= j < key_upto(reach, h, n).len() implies 0
            <= #[trigger] key_upto(reach, h, n)[j] < n by {
            if j < prev.len() {
                assert(key_upto(reach, h, n)[j] == prev[j]);
            }
        }
    }
}

/// The indices of all users permitted on host `h`, ascending.
pub open spec fn key_of(reach: Reach, h: Seq<char>) -> Seq<int> {
    key_upto(reach, h, reach.len() as int)
}

/// Whether some user's access pattern selects host `h`.
pub open spec fn reached(reach: Reach, h: Seq<char>) -> bool {
    exists|i: int, j: int| 0 <= i < reach.len() && 0 <= j < reach[i].len() && reach[i][j] == h
}

/// Whether host `h` stands in some group of `gs`.
pub open spec fn grouped(gs: Seq<GroupView>, h: Seq<char>) -> bool {
    exists|g: int, k: int| 0 <= g < gs.len() && 0 <= k < gs[g].1.len() && gs[g].1[k] == h
}

/// `gs` partitions the reached hosts by their permitted users: each group
/// holds at least one host, each of its hosts once, and exactly the users
/// permitted there; no two groups share a key; every reached host is
/// grouped and every grouped host is reached.
pub open spec fn valid_grouping(reach: Reach, gs: Seq<GroupView>) -> bool {
    &&& forall|g: int| 0 <= g < gs.len() ==> #[trigger] gs[g].1.len() > 0
    &&& forall|g: int, k: int|
        0 <= g < gs.len() && 0 <= k < gs[g].1.len() ==> key_of(reach, #[trigger] gs[g].1[k])
            == gs[g].0
    &&& forall|g: int, a: int, b: int|
        0 <= g < gs.len() && 0 <= a < b < gs[g].1.len() ==> #[trigger] gs[g].1[a]
            != #[trigger] gs[g].1[b]
    &&& forall|g1: int, g2: int|
        0 <= g1 < g2 < gs.len() ==> #[trigger] gs[g1].0 != #[trigger] gs[g2].0
    &&& forall|h: Seq<char>| reached(reach, h) ==> grouped(gs, h)
    &&& forall|g: int, k: int|
        0 <= g < gs.len() && 0 <= k < gs[g].1.len() ==> reached(reach, #[trigger] gs[g].1[k])
}

/// The users permitted on `host`, by index, ascending.
fn permitted_users(reach: &Vec<Vec<String>>, host: &String) -> (r: Vec<usize>)
    ensures
        ints(r@) == key_of(reach_views(reach@), host@),
{
    let ghost rv = reach_views(reach@);
    let mut r: Vec<usize> = Vec::new();
    let mut i: usize = 0;
    while i < reach.len()
        invariant
            i <= reach.len(),
            rv == reach_views(reach@),
            ints(r@) == key_upto(rv, host@, i as int),
        decreases reach.len() - i,
    {
        assert(rv[i as int] == views(reach@[i as int]@));
        let ghost prev = r@;
        if contains_string(&reach[i], host) {
            r.push(i);
            assert(ints(r@) =~= ints(prev).push(i as int));
        }
        i = i + 1;
    }
    r
}

fn same_key(a: &Vec<usize>, b: &Vec<usize>) -> (r: bool)
    ensures
        r == (ints(a@) == ints(b@)),
{
    if a.len() != b.len() {
        assert(ints(a@).len() != ints(b@).len());
        return false;
    }
    let mut i: usize = 0;
    while i < a.len()
        invariant
            i <= a.len(),
            a.len() == b.len(),
            forall|k: int| 0 <= k < i ==> a@[k] == b@[k],
        decreases a.len() - i,
    {
        if a[i] != b[i] {
            assert(ints(a@)[i as int] != ints(b@)[i as int]);
            return false;
        }
        i = i + 1;
    }
    assert(ints(a@) =~= ints(b@));
    true
}

/// Every host that some access pattern selects, once each.
fn distinct_hosts(reach: &Vec<Vec<String>>) -> (r: Vec<String>)
    ensures
        forall|a: int, b: int| 0 <= a < b < r@.len() ==> #[trigger] r@[a]@ != #[trigger] r@[b]@,
        forall|k: int| 0 <= k < r@.len() ==> reached(reach_views(reach@), #[trigger] r@[k]@),
        forall|h: Seq<char>| reached(reach_views(reach@), h) ==> views(r@).contains(h),
{
    let ghost rv = reach_views(reach@);
    let mut r: Vec<String> = Vec::new();
    let mut i: usize = 0;
    while i < reach.len()
        invariant
            i <= reach.len(),
            rv == reach_views(reach@),
            forall|a: int, b: int| 0 <= a < b < r@.len() ==> #[trigger] r@[a]@ != #[trigger] r@[b]@,
            forall|k: int| 0 <= k < r@.len() ==> reached(rv, #[trigger] r@[k]@),
            forall|x: int, y: int|
                0 <= x < i && 0 <= y < rv[x].len() ==> views(r@).contains(#[trigger] rv[x][y]),
        decreases reach.len() - i,
    {
        assert(rv[i as int] == views(reach@[i as int]@));
        let mut j: usize = 0;
        while j < reach[i].len()
            invariant
                i < reach.len(),
                j <= reach@[i as int]@.len(),
                rv == reach_views(reach@),
                rv[i as int] == views(reach@[i as int]@),
                forall|a: int, b: int|
                    0 <= a < b < r@.len() ==> #[trigger] r@[a]@ != #[trigger] r@[b]@,
                forall|k: int| 0 <= k < r@.len() ==> reached(rv, #[trigger] r@[k]@),
                forall|x: int, y: int|
                    0 <= x < i && 0 <= y < rv[x].len() ==> views(r@).contains(#[trigger] rv[x][y]),
                forall|y: int| 0 <= y < j ==> views(r@).contains(#[trigger] rv[i as int][y]),
            decreases reach@[i as int]@.len() - j,
        {
            let h = &reach[i][j];
            assert(rv[i as int][j as int] == h@);
            if !contains_string(&r, h) {
                let ghost prev = r@;
                r.push(h.clone());
                assert(views(r@) =~= views(prev).push(h@));
                assert(reached(rv, r@[r@.len() - 1]@));
                assert forall|a: int, b: int| 0 <= a < b < r@.len() implies #[trigger] r@[a]@
                    != #[trigger] r@[b]@ by {
                    if b == r@.len() - 1 {
                        assert(views(prev)[a] == prev[a]@);
                    }
                }
                assert forall|x: int, y: int|
                    0 <= x < i && 0 <= y < rv[x].len() implies views(r@).contains(
                    #[trigger] rv[x][y],
                ) by {
                    let k = choose|k: int| 0 <= k < prev.len() && views(prev)[k] == rv[x][y];
                    assert(views(r@)[k] == rv[x][y]);
                }
                assert forall|y: int| 0 <= y < j implies views(r@).contains(
                    #[trigger] rv[i as int][y],
                ) by {
                    let k = choose|k: int| 0 <= k < prev.len() && views(prev)[k] == rv[i as int][y];
                    assert(views(r@)[k] == rv[i as int][y]);
                }
                assert(views(r@)[prev.len() as int] == h@);
            }
            assert(views(r@).contains(rv[i as int][j as int]));
            j = j + 1;
        }
        i = i + 1;
    }
    r
}

/// The distinct hosts `hv`, each reached, and every reached host among them.
spec fn hosts_ok(rv: Reach, hv: Seq<Seq<char>>) -> bool {
    &&& forall|a: int, b: int| 0 <= a < b < hv.len() ==> #[trigger] hv[a] != #[trigger] hv[b]
    &&& forall|k: int| 0 <= k < hv.len() ==> reached(rv, #[trigger] hv[k])
    &&& forall|h: Seq<char>| reached(rv, h) ==> hv.contains(h)
}

/// `gs` groups exactly the first `t` hosts of `hv`.
spec fn grouped_upto(rv: Reach, gs: Seq<GroupView>, hv: Seq<Seq<char>>, t: int) -> bool {
    &&& forall|g: int| 0 <= g < gs.len() ==> #[trigger] gs[g].1.len() > 0
    &&& forall|g: int, k: int|
        0 <= g < gs.len() && 0 <= k < gs[g].1.len() ==> key_of(rv, #[trigger] gs[g].1[k])
            == gs[g].0
    &&& forall|g: int, a: int, b: int|
        0 <= g < gs.len() && 0 <= a < b < gs[g].1.len() ==> #[trigger] gs[g].1[a]
            != #[trigger] gs[g].1[b]
    &&& forall|g1: int, g2: int|
        0 <= g1 < g2 < gs.len() ==> #[trigger] gs[g1].0 != #[trigger] gs[g2].0
    &&& forall|g: int, k: int|
        0 <= g < gs.len() && 0 <= k < gs[g].1.len() ==> reached(rv, #[trigger] gs[g].1[k])
    &&& forall|g: int, k: int, u: int|
        0 <= g < gs.len() && 0 <= k < gs[g].1.len() && t <= u < hv.len() ==> #[trigger] gs[g].1[k]
            != #[trigger] hv[u]
    &&& forall|u: int| 0 <= u < t ==> grouped(gs, #[trigger] hv[u])
}

proof fn lemma_join_group(rv: Reach, gs: Seq<GroupView>, hv: Seq<Seq<char>>, t: int, g: int)
    requires
        hosts_ok(rv, hv),
        grouped_upto(rv, gs, hv, t),
        0 <= t < hv.len(),
        0 <= g < gs.len(),
        key_of(rv, hv[t]) == gs[g].0,
    ensures
        grouped_upto(rv, gs.update(g, (gs[g].0, gs[g].1.push(hv[t]))), hv, t + 1),
{
    let h = hv[t];
    let gs2 = gs.update(g, (gs[g].0, gs[g].1.push(h)));
    assert forall|x: int, a: int, b: int|
        0 <= x < gs2.len() && 0 <= a < b < gs2[x].1.len() implies #[trigger] gs2[x].1[a]
        != #[trigger] gs2[x].1[b] by {
        if x == g && b == gs[g].1.len() {
            assert(gs[g].1[a] != hv[t]);
        } else if x == g {
            assert(gs[g].1[a] != gs[g].1[b]);
        }
    }
    assert forall|x: int, k: int, u: int|
        0 <= x < gs2.len() && 0 <= k < gs2[x].1.len() && t + 1 <= u < hv.len() implies #[trigger] gs2[x].1[k]
        != #[trigger] hv[u] by {
        if x == g && k == gs[g].1.len() {
            assert(hv[t] != hv[u]);
        } else {
            assert(gs2[x].1[k] == gs[x].1[k]);
        }
    }
    assert forall|u: int| 0 <= u < t + 1 implies grouped(gs2, #[trigger] hv[u]) by {
        if u == t {
            assert(gs2[g].1[gs[g].1.len() as int] == hv[u]);
        } else {
            let (x, k) = choose|x: int, k: int|
                0 <= x < gs.len() && 0 <= k < gs[x].1.len() && gs[x].1[k] == hv[u];
            assert(gs2[x].1[k] == hv[u]);
        }
    }
    assert forall|x: int, k: int|
        0 <= x < gs2.len() && 0 <= k < gs2[x].1.len() implies key_of(rv, #[trigger] gs2[x].1[k])
        == gs2[x].0 && reached(rv, gs2[x].1[k]) by {
        if x == g && k == gs[g].1.len() {
        } else {
            assert(gs2[x].1[k] == gs[x].1[k]);
        }
    }
}

proof fn lemma_new_group(rv: Reach, gs: Seq<GroupView>, hv: Seq<Seq<char>>, t: int)
    requires
        hosts_ok(rv, hv),
        grouped_upto(rv, gs, hv, t),
        0 <= t < hv.len(),
        forall|g: int| 0 <= g < gs.len() ==> #[trigger] gs[g].0 != key_of(rv, hv[t]),
    ensures
        grouped_upto(rv, gs.push((key_of(rv, hv[t]), seq![hv[t]])), hv, t + 1),
{
    let gs2 = gs.push((key_of(rv, hv[t]), seq![hv[t]]));
    assert forall|u: int| 0 <= u < t + 1 implies grouped(gs2, #[trigger] hv[u]) by {
        if u == t {
            assert(gs2[gs.len() as int].1[0] == hv[u]);
        } else {
            let (x, k) = choose|x: int, k: int|
                0 <= x < gs.len() && 0 <= k < gs[x].1.len() && gs[x].1[k] == hv[u];
            assert(gs2[x].1[k] == hv[u]);
        }
    }
    assert forall|x: int, k: int, u: int|
        0 <= x < gs2.len() && 0 <= k < gs2[x].1.len() && t + 1 <= u < hv.len() implies #[trigger] gs2[x].1[k]
        != #[trigger] hv[u] by {
        if x == gs.len() {
            assert(hv[t] != hv[u]);
        } else {
            assert(gs2[x].1[k] == gs[x].1[k]);
        }
    }
}

proof fn lemma_grouped_all(rv: Reach, gs: Seq<GroupView>, hv: Seq<Seq<char>>)
    requires
        hosts_ok(rv, hv),
        grouped_upto(rv, gs, hv, hv.len() as int),
    ensures
        valid_grouping(rv, gs),
{
    assert forall|h: Seq<char>| reached(rv, h) implies grouped(gs, h) by {
        let u = choose|u: int| 0 <= u < hv.len() && hv[u] == h;
        assert(grouped(gs, hv[u]));
    }
}

/// Groups the hosts that `reach` selects by the users permitted on them:
/// `reach[i]` lists the hosts of user `i`.
pub fn compute_groups(reach: &Vec<Vec<String>>) -> (r: Vec<(Vec<usize>, Vec<String>)>)
    ensures
        valid_grouping(reach_views(reach@), group_views(r@)),
{
    let ghost rv = reach_views(reach@);
    let hosts = distinct_hosts(reach);
    let ghost hv = views(hosts@);
    assert(hosts_ok(rv, hv)) by {
        assert forall|a: int, b: int| 0 <= a < b < hv.len() implies #[trigger] hv[a]
            != #[trigger] hv[b] by {
            assert(hosts@[a]@ != hosts@[b]@);
        }
        assert forall|k: int| 0 <= k < hv.len() implies reached(rv, #[trigger] hv[k]) by {
            assert(reached(rv, hosts@[k]@));
        }
    }
    let mut gs: Vec<(Vec<usize>, Vec<String>)> = Vec::new();
    let mut t: usize = 0;
    while t < hosts.len()
        invariant
            t <= hosts.len(),
            rv == reach_views(reach@),
            hv == views(hosts@),
            hosts_ok(rv, hv),
            grouped_upto(rv, group_views(gs@), hv, t as int),
        decreases hosts.len() - t,
    {
        let ghost gv = group_views(gs@);
        let h = &hosts[t];
        assert(hv[t as int] == h@);
        let key = permitted_users(reach, h);
        let mut g: usize = 0;
        let mut found = false;
        while g < gs.len() && !found
            invariant
                g <= gs.len(),
                gv == group_views(gs@),
                !found ==> forall|x: int| 0 <= x < g ==> #[trigger] gv[x].0 != ints(key@),
                found ==> g < gs.len() && gv[g as int].0 == ints(key@),
            decreases gs.len() - g + (if found { 0int } else { 1int }),
        {
            if same_key(&gs[g].0, &key) {
                found = true;
            } else {
                g = g + 1;
            }
        }
        if found {
            proof {
                lemma_join_group(rv, gv, hv, t as int, g as int);
            }
            let ghost old_gs = gs@;
            let (k, mut hs) = gs.remove(g);
            assert(ints(k@) == gv[g as int].0 && views(hs@) == gv[g as int].1);
            let ghost hs0 = hs@;
            hs.push(h.clone());
            assert(views(hs@) =~= views(hs0).push(h@));
            gs.insert(g, (k, hs));
            assert(gs@ =~= old_gs.update(g as int, gs@[g as int]));
            assert(group_views(gs@) =~= gv.update(
                g as int,
                (gv[g as int].0, gv[g as int].1.push(hv[t as int])),
            ));
        } else {
            proof {
                lemma_new_group(rv, gv, hv, t as int);
            }
            let one = vec![h.clone()];
            assert(views(one@) =~= seq![hv[t as int]]);
            gs.push((key, one));
            assert(group_views(gs@) =~= gv.push((key_of(rv, hv[t as int]), seq![hv[t as int]])));
        }
        t = t + 1;
    }
    proof {
        lemma_grouped_all(rv, group_views(gs@), hv);
    }
    gs
}

} // verus!
