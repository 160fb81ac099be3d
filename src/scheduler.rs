//! Dependency-ordered scheduling: systems are numbered, each lists the systems
//! it must run after, and an execution order is computed once, up front.
use vstd::prelude::*;
use vstd::set_lib::{lemma_int_range, lemma_len_subset, set_int_range};

verus! {

#[derive(Clone, Copy, Debug, PartialEq, Eq, Structural)]
pub enum ScheduleError {
    /// A system names a predecessor that does not exist.
    UnknownDependency,
    /// The declared dependencies contain a cycle.
    Cycle,
}

/// `v` occurs in `s`.
pub open spec fn occurs(s: Seq<usize>, v: int) -> bool {
    exists|a: int| 0 <= a < s.len() && s[a] == v
}

/// Every declared predecessor is one of the systems.
pub open spec fn deps_known(deps: Seq<Vec<usize>>) -> bool {
    forall|i: int, j: int|
        0 <= i < deps.len() && 0 <= j < deps[i]@.len() ==> #[trigger] deps[i]@[j] < deps.len()
}

/// `d` stands among the first `a` entries of `s`.
pub open spec fn occurs_before(s: Seq<usize>, a: int, d: usize) -> bool {
    exists|b: int| 0 <= b < a && s[b] == d
}

/// Every predecessor of the system at position `a` of `order` stands earlier.
pub open spec fn preds_before(deps: Seq<Vec<usize>>, order: Seq<usize>, a: int) -> bool {
    forall|j: int|
        0 <= j < deps[order[a] as int]@.len() ==> #[trigger] occurs_before(
            order,
            a,
            deps[order[a] as int]@[j],
        )
}

/// `order` lists every system exactly once, each after all its predecessors.
pub open spec fn is_order(deps: Seq<Vec<usize>>, order: Seq<usize>) -> bool {
    &&& order.len() == deps.len()
    &&& forall|a: int| 0 <= a < order.len() ==> #[trigger] order[a] < deps.len()
    &&& forall|a: int, b: int| 0 <= a < b < order.len() ==> order[a] != order[b]
    &&& forall|v: int| 0 <= v < deps.len() ==> #[trigger] occurs(order, v)
    &&& forall|a: int| 0 <= a < order.len() ==> #[trigger] preds_before(deps, order, a)
}

/// Some order runs every system after its predecessors.
pub open spec fn schedulable(deps: Seq<Vec<usize>>) -> bool {
    exists|order: Seq<usize>| is_order(deps, order)
}

/// Distinct values below `n` number at most `n`; if every value below `n`
/// occurs, they number at least `n`.
proof fn lemma_distinct_below(s: Seq<usize>, n: nat)
    requires
        forall|a: int| 0 <= a < s.len() ==> #[trigger] s[a] < n,
        forall|a: int, b: int| 0 <= a < b < s.len() ==> s[a] != s[b],
    ensures
        s.len() <= n,
        (forall|v: int| 0 <= v < n ==> #[trigger] occurs(s, v)) ==> s.len() >= n,
{
    let t = s.map_values(|x: usize| x as int);
    assert(t.no_duplicates()) by {
        assert forall|a: int, b: int| 0 <= a < t.len() && 0 <= b < t.len() && a != b implies t[a] != t[b] by {
            if a < b {
                assert(s[a] != s[b]);
            } else {
                assert(s[b] != s[a]);
            }
        }
    }
    t.unique_seq_to_set();
    lemma_int_range(0, n as int);
    assert(t.to_set().subset_of(set_int_range(0, n as int))) by {
        assert forall|x: int| t.to_set().contains(x) implies set_int_range(0, n as int).contains(x) by {
            let a = choose|a: int| 0 <= a < t.len() && t[a] == x;
            assert(s[a] < n);
        }
    }
    lemma_len_subset(t.to_set(), set_int_range(0, n as int));
    if forall|v: int| 0 <= v < n ==> #[trigger] occurs(s, v) {
        assert(set_int_range(0, n as int).subset_of(t.to_set())) by {
            assert forall|x: int| set_int_range(0, n as int).contains(x) implies t.to_set().contains(x) by {
                assert(occurs(s, x));
                let a = choose|a: int| 0 <= a < s.len() && s[a] == x;
                assert(t[a] == x);
            }
        }
        lemma_len_subset(set_int_range(0, n as int), t.to_set());
    }
}

/// Every system placed by a valid order precedes nothing that is blocked: if
/// every unplaced system waits on an unplaced one, the order places none of them.
proof fn lemma_order_prefix_placed(deps: Seq<Vec<usize>>, placed: Seq<bool>, order: Seq<usize>, a: int)
    requires
        is_order(deps, order),
        placed.len() == deps.len(),
        forall|v: int|
            0 <= v < deps.len() && !#[trigger] placed[v] ==> exists|j: int|
                0 <= j < deps[v]@.len() && !placed[deps[v]@[j] as int],
        0 <= a < order.len(),
    ensures
        placed[order[a] as int],
    decreases a,
{
    let v = order[a] as int;
    if !placed[v] {
        let j = choose|j: int| 0 <= j < deps[v]@.len() && !placed[deps[v]@[j] as int];
        assert(preds_before(deps, order, a));
        assert(occurs_before(order, a, deps[v]@[j]));
        let b = choose|b: int| 0 <= b < a && order[b] == deps[v]@[j];
        lemma_order_prefix_placed(deps, placed, order, b);
    }
}

/// When some system is unplaced and every unplaced system waits on an
/// unplaced one, no valid order exists.
proof fn lemma_blocked_unschedulable(deps: Seq<Vec<usize>>, placed: Seq<bool>, w: int)
    requires
        placed.len() == deps.len(),
        0 <= w < deps.len(),
        !placed[w],
        forall|v: int|
            0 <= v < deps.len() && !#[trigger] placed[v] ==> exists|j: int|
                0 <= j < deps[v]@.len() && !placed[deps[v]@[j] as int],
    ensures
        !schedulable(deps),
{
    if schedulable(deps) {
        let order = choose|order: Seq<usize>| is_order(deps, order);
        assert(occurs(order, w));
        let a = choose|a: int| 0 <= a < order.len() && order[a] == w;
        lemma_order_prefix_placed(deps, placed, order, a);
    }
}

proof fn lemma_preds_extend(deps: Seq<Vec<usize>>, before: Seq<usize>, v: usize, a: int)
    requires
        0 <= a < before.len(),
        preds_before(deps, before, a),
    ensures
        preds_before(deps, before.push(v), a),
{
    let order = before.push(v);
    assert(order[a] == before[a]);
    assert forall|j: int| 0 <= j < deps[order[a] as int]@.len() implies #[trigger] occurs_before(
        order,
        a,
        deps[order[a] as int]@[j],
    ) by {
        let d = deps[before[a] as int]@[j];
        assert(occurs_before(before, a, d));
        let b = choose|b: int| 0 <= b < a && before[b] == d;
        assert(order[b] == before[b]);
    }
}

/// Two distinct systems that each must run after the other cannot both be
/// scheduled: such a dependency cycle leaves no valid order.
pub proof fn lemma_mutual_dependency_unschedulable(deps: Seq<Vec<usize>>, a: int, b: int, ja: int, jb: int)
    requires
        0 <= a < deps.len(),
        0 <= b < deps.len(),
        a != b,
        0 <= ja < deps[a]@.len(),
        deps[a]@[ja] == b,
        0 <= jb < deps[b]@.len(),
        deps[b]@[jb] == a,
    ensures
        !schedulable(deps),
{
    if schedulable(deps) {
        let order = choose|order: Seq<usize>| is_order(deps, order);
        assert(occurs(order, a));
        let pa = choose|p: int| 0 <= p < order.len() && order[p] == a;
        assert(preds_before(deps, order, pa));
        assert(occurs_before(order, pa, deps[order[pa] as int]@[ja]));
        let pb = choose|p: int| 0 <= p < pa && order[p] == b;
        assert(preds_before(deps, order, pb));
        assert(occurs_before(order, pb, deps[order[pb] as int]@[jb]));
        let pc = choose|p: int| 0 <= p < pb && order[p] == a;
        assert(order[pc] != order[pa]);
    }
}

enum Readiness {
    Ready(usize),
    Blocked,
    Done,
}

fn find_ready(deps: &Vec<Vec<usize>>, placed: &Vec<bool>) -> (r: Readiness)
    requires
        placed@.len() == deps@.len(),
        deps_known(deps@),
    ensures
        r matches Readiness::Ready(v) ==> v < deps@.len() && !placed@[v as int] && forall|j: int|
            0 <= j < deps@[v as int]@.len() ==> placed@[#[trigger] deps@[v as int]@[j] as int],
        r matches Readiness::Blocked ==> (exists|w: int| 0 <= w < deps@.len() && !placed@[w])
            && forall|v: int|
            0 <= v < deps@.len() && !#[trigger] placed@[v] ==> exists|j: int|
                0 <= j < deps@[v]@.len() && !placed@[deps@[v]@[j] as int],
        r matches Readiness::Done ==> forall|v: int| 0 <= v < deps@.len() ==> placed@[v],
{
    let n = deps.len();
    let mut any_unplaced = false;
    let mut v: usize = 0;
    while v < n
        invariant
            n == deps@.len(),
            placed@.len() == n,
            deps_known(deps@),
            0 <= v <= n,
            any_unplaced ==> exists|w: int| 0 <= w < n && !placed@[w],
            !any_unplaced ==> forall|w: int| 0 <= w < v ==> placed@[w],
            forall|u: int|
                0 <= u < v && !#[trigger] placed@[u] ==> exists|j: int|
                    0 <= j < deps@[u]@.len() && !placed@[deps@[u]@[j] as int],
        decreases n - v,
    {
        if !placed[v] {
            any_unplaced = true;
            let mut ready = true;
            let mut j: usize = 0;
            while j < deps[v].len()
                invariant
                    n == deps@.len(),
                    placed@.len() == n,
                    deps_known(deps@),
                    0 <= v < n,
                    0 <= j <= deps@[v as int]@.len(),
                    ready == forall|k: int| 0 <= k < j ==> placed@[#[trigger] deps@[v as int]@[k] as int],
                decreases deps@[v as int]@.len() - j,
            {
                let d = deps[v][j];
                assert(d < n);
                if !placed[d] {
                    ready = false;
                }
                j = j + 1;
            }
            if ready {
                return Readiness::Ready(v);
            }
        }
        v = v + 1;
    }
    if any_unplaced {
        Readiness::Blocked
    } else {
        Readiness::Done
    }
}

/// Checks that every declared predecessor exists.
pub fn check_deps_known(deps: &Vec<Vec<usize>>) -> (r: bool)
    ensures
        r == deps_known(deps@),
{
    let n = deps.len();
    let mut i: usize = 0;
    while i < n
        invariant
            n == deps@.len(),
            0 <= i <= n,
            forall|a: int, j: int| 0 <= a < i && 0 <= j < deps@[a]@.len() ==> #[trigger] deps@[a]@[j] < n,
        decreases n - i,
    {
        let mut j: usize = 0;
        while j < deps[i].len()
            invariant
                n == deps@.len(),
                0 <= i < n,
                0 <= j <= deps@[i as int]@.len(),
                forall|a: int, k: int| 0 <= a < i && 0 <= k < deps@[a]@.len() ==> #[trigger] deps@[a]@[k] < n,
                forall|k: int| 0 <= k < j ==> #[trigger] deps@[i as int]@[k] < n,
            decreases deps@[i as int]@.len() - j,
        {
            if deps[i][j] >= n {
                return false;
            }
            j = j + 1;
        }
        i = i + 1;
    }
    true
}

/// Computes an order in which every system runs after all its declared
/// predecessors, or tells why none exists.
pub fn build_order(deps: &Vec<Vec<usize>>) -> (r: Result<Vec<usize>, ScheduleError>)
    ensures
        r matches Ok(order) ==> is_order(deps@, order@),
        r is Ok <==> deps_known(deps@) && schedulable(deps@),
        r == Err::<Vec<usize>, ScheduleError>(ScheduleError::UnknownDependency) <==> !deps_known(deps@),
        r == Err::<Vec<usize>, ScheduleError>(ScheduleError::Cycle) <==> deps_known(deps@) && !schedulable(deps@),
{
    if !check_deps_known(deps) {
        return Err(ScheduleError::UnknownDependency);
    }
    let n = deps.len();
    let mut placed: Vec<bool> = Vec::new();
    let mut k: usize = 0;
    while k < n
        invariant
            0 <= k <= n,
            placed@.len() == k,
            forall|v: int| 0 <= v < k ==> !placed@[v],
        decreases n - k,
    {
        placed.push(false);
        k = k + 1;
    }
    let mut order: Vec<usize> = Vec::new();
    loop
        invariant
            n == deps@.len(),
            deps_known(deps@),
            placed@.len() == n,
            order@.len() <= n,
            forall|a: int| 0 <= a < order@.len() ==> #[trigger] order@[a] < n,
            forall|a: int, b: int| 0 <= a < b < order@.len() ==> order@[a] != order@[b],
            forall|v: int|
                0 <= v < n ==> (#[trigger] placed@[v] <==> exists|a: int|
                    0 <= a < order@.len() && #[trigger] order@[a] == v),
            forall|a: int| 0 <= a < order@.len() ==> #[trigger] preds_before(deps@, order@, a),
        decreases n - order@.len(),
    {
        match find_ready(deps, &placed) {
            Readiness::Ready(v) => {
                let ghost before = order@;
                proof {
                    assert forall|a: int| 0 <= a < before.len() implies before[a] != v by {
                        if before[a] == v {
                            assert(placed@[v as int]);
                        }
                    }
                    assert forall|j: int| 0 <= j < deps@[v as int]@.len() implies #[trigger] occurs_before(
                        before,
                        before.len() as int,
                        deps@[v as int]@[j],
                    ) by {
                        let d = deps@[v as int]@[j];
                        assert(placed@[d as int]);
                    }
                }
                order.push(v);
                placed.set(v, true);
                proof {
                    lemma_distinct_below(order@, n as nat);
                    assert forall|u: int|
                        0 <= u < n implies (#[trigger] placed@[u] <==> exists|a: int|
                            0 <= a < order@.len() && #[trigger] order@[a] == u) by {
                        if u == v {
                            assert(order@[before.len() as int] == u);
                        } else {
                            if placed@[u] {
                                let a = choose|a: int| 0 <= a < before.len() && #[trigger] before[a] == u;
                                assert(order@[a] == u);
                            }
                            if exists|a: int| 0 <= a < order@.len() && #[trigger] order@[a] == u {
                                let a = choose|a: int| 0 <= a < order@.len() && #[trigger] order@[a] == u;
                                assert(before[a] == u);
                            }
                        }
                    }
                    assert(order@ =~= before.push(v));
                    assert forall|a: int| 0 <= a < order@.len() implies #[trigger] preds_before(deps@, order@, a) by {
                        if a == before.len() {
                            assert forall|j: int| 0 <= j < deps@[order@[a] as int]@.len() implies #[trigger] occurs_before(
                                order@,
                                a,
                                deps@[order@[a] as int]@[j],
                            ) by {
                                let d = deps@[v as int]@[j];
                                assert(occurs_before(before, before.len() as int, d));
                                let b = choose|b: int| 0 <= b < before.len() && before[b] == d;
                                assert(order@[b] == before[b]);
                            }
                        } else {
                            lemma_preds_extend(deps@, before, v, a);
                        }
                    }
                }
            },
            Readiness::Blocked => {
                proof {
                    let w = choose|w: int| 0 <= w < n && !placed@[w];
                    lemma_blocked_unschedulable(deps@, placed@, w);
                }
                return Err(ScheduleError::Cycle);
            },
            Readiness::Done => {
                proof {
                    assert forall|v: int| 0 <= v < n implies #[trigger] occurs(order@, v) by {
                        assert(placed@[v]);
                    }
                    lemma_distinct_below(order@, n as nat);
                    assert(is_order(deps@, order@));
                }
                return Ok(order);
            },
        }
    }
}

} // verus!
