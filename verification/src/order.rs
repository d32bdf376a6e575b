//! Launch ordering over the dependency graph.
//!
//! A descriptor set induces a graph: `deps[i]` lists the indices of the
//! services that service `i` depends on.  A launch order is valid when every
//! service appears after all of its dependencies.  The planner below builds
//! such an order greedily, always taking the first (declaration-order)
//! service whose dependencies are already placed, so ties between unordered
//! siblings are broken by declaration order.  It fails exactly on the graphs
//! that admit no complete valid order, i.e. the cyclic ones.

use vstd::prelude::*;

verus! {

/// Every dependency index points into the set.
pub open spec fn graph_wf(deps: Seq<Seq<usize>>) -> bool {
    forall|i: int, k: int|
        0 <= i < deps.len() && 0 <= k < deps[i].len() ==> (#[trigger] deps[i][k]) < deps.len()
}

/// `ord` lists distinct indices of the graph, and every dependency of
/// `ord[p]` appears in `ord` strictly before position `p`.
pub open spec fn valid_order_prefix(deps: Seq<Seq<usize>>, ord: Seq<usize>) -> bool {
    &&& forall|p: int| 0 <= p < ord.len() ==> (#[trigger] ord[p]) < deps.len()
    &&& forall|p: int, q: int| 0 <= p < q < ord.len() ==> #[trigger] ord[p] != #[trigger] ord[q]
    &&& forall|p: int, k: int|
        0 <= p < ord.len() && 0 <= k < deps[ord[p] as int].len() ==> ord.take(p).contains(
            #[trigger] deps[ord[p] as int][k],
        )
}

/// A valid order that places every service of the graph.
pub open spec fn valid_complete_order(deps: Seq<Seq<usize>>, ord: Seq<usize>) -> bool {
    valid_order_prefix(deps, ord) && ord.len() == deps.len()
}

/// A graph is acyclic exactly when some complete valid order exists.
pub open spec fn acyclic(deps: Seq<Seq<usize>>) -> bool {
    exists|ord: Seq<usize>| valid_complete_order(deps, ord)
}

/// True when every dependency listed in `ds` is already placed.
fn all_placed(placed: &Vec<bool>, ds: &Vec<usize>) -> (r: bool)
    requires
        forall|k: int| 0 <= k < ds@.len() ==> (#[trigger] ds@[k]) < placed@.len(),
    ensures
        r <==> forall|k: int| 0 <= k < ds@.len() ==> placed@[#[trigger] ds@[k] as int],
{
    let mut k: usize = 0;
    while k < ds.len()
        invariant
            k <= ds@.len(),
            forall|j: int| 0 <= j < ds@.len() ==> (#[trigger] ds@[j]) < placed@.len(),
            forall|j: int| 0 <= j < k ==> placed@[#[trigger] ds@[j] as int],
        decreases ds@.len() - k,
    {
        if !placed[ds[k]] {
            return false;
        }
        k = k + 1;
    }
    true
}

/// Scanning a complete valid order from the front, return the first position
/// holding an unplaced service; all services at earlier positions are placed.
proof fn first_unplaced_position(placed: Seq<bool>, sigma: Seq<usize>, k: int) -> (p: int)
    requires
        placed.len() == sigma.len(),
        forall|p: int| 0 <= p < sigma.len() ==> (#[trigger] sigma[p]) < sigma.len(),
        0 <= k <= sigma.len(),
        forall|j: int| 0 <= j < k ==> placed[#[trigger] sigma[j] as int],
        exists|j: int| 0 <= j < sigma.len() && !placed[#[trigger] sigma[j] as int],
    ensures
        0 <= p < sigma.len(),
        !placed[sigma[p] as int],
        forall|j: int| 0 <= j < p ==> placed[#[trigger] sigma[j] as int],
    decreases sigma.len() - k,
{
    if k == sigma.len() {
        let j = choose|j: int| 0 <= j < sigma.len() && !placed[#[trigger] sigma[j] as int];
        assert(placed[sigma[j] as int]);
        k
    } else if !placed[sigma[k] as int] {
        k
    } else {
        first_unplaced_position(placed, sigma, k + 1)
    }
}

/// If the greedy planner is stuck — some services are unplaced, yet every
/// unplaced service has an unplaced dependency — then no complete valid
/// order of the graph exists.
proof fn lemma_stuck_implies_cyclic(deps: Seq<Seq<usize>>, placed: Seq<bool>, ord: Seq<usize>)
    requires
        graph_wf(deps),
        placed.len() == deps.len(),
        valid_order_prefix(deps, ord),
        ord.len() < deps.len(),
        forall|i: int| 0 <= i < deps.len() ==> (placed[i] <==> ord.contains(i as usize)),
        forall|i: int|
            0 <= i < deps.len() && !placed[i] ==> exists|k: int|
                0 <= k < deps[i].len() && !placed[#[trigger] deps[i][k] as int],
    ensures
        !acyclic(deps),
{
    broadcast use vstd::seq_lib::group_seq_properties;

    if acyclic(deps) {
        let sigma = choose|s: Seq<usize>| valid_complete_order(deps, s);
        // Some position of `sigma` holds an unplaced service: otherwise the
        // distinct complete order would fit inside the shorter placed prefix.
        assert(exists|j: int| 0 <= j < sigma.len() && !placed[#[trigger] sigma[j] as int]) by {
            if forall|j: int| 0 <= j < sigma.len() ==> placed[#[trigger] sigma[j] as int] {
                assert(forall|j: int|
                    0 <= j < sigma.len() ==> ord.contains(#[trigger] sigma[j]));
                assert(sigma.to_set().subset_of(ord.to_set())) by {
                    assert forall|x: usize| sigma.to_set().contains(x) implies ord.to_set()
                        .contains(x) by {
                        let j = choose|j: int| 0 <= j < sigma.len() && sigma[j] == x;
                        assert(ord.contains(sigma[j]));
                    }
                }
                sigma.unique_seq_to_set();
                ord.lemma_cardinality_of_set();
                vstd::set_lib::lemma_len_subset(sigma.to_set(), ord.to_set());
            }
        }
        let p = first_unplaced_position(placed, sigma, 0);
        let x = sigma[p] as int;
        // Every dependency of `sigma[p]` appears before position `p` in
        // `sigma`, hence is placed; so `sigma[p]` is an unplaced service with
        // all dependencies placed, contradicting the stuck condition.
        assert forall|k: int| 0 <= k < deps[x].len() implies placed[#[trigger] deps[x][k] as int] by {
            assert(sigma.take(p).contains(deps[x][k]));
            let j = choose|j: int| 0 <= j < p && sigma.take(p)[j] == deps[x][k];
            assert(sigma[j] == deps[x][k]);
        }
        let k = choose|k: int| 0 <= k < deps[x].len() && !placed[#[trigger] deps[x][k] as int];
        assert(false);
    }
}

/// Build a launch order for the graph: a complete valid topological order,
/// with ties between simultaneously launchable services broken by
/// declaration order.  Returns `None` exactly when the graph is cyclic.
pub fn topological_order(deps: &Vec<Vec<usize>>) -> (r: Option<Vec<usize>>)
    requires
        graph_wf(deps.deep_view()),
    ensures
        r matches Some(ord) ==> valid_complete_order(deps.deep_view(), ord@),
        r is Some <==> acyclic(deps.deep_view()),
{
    let ghost dv = deps.deep_view();
    let n = deps.len();
    assert(dv.len() == n);
    assert(forall|i: int| 0 <= i < n ==> dv[i] =~= (#[trigger] deps@[i])@);
    let mut placed: Vec<bool> = Vec::new();
    let mut i: usize = 0;
    while i < n
        invariant
            i <= n,
            placed@.len() == i,
            forall|j: int| 0 <= j < i ==> !(#[trigger] placed@[j]),
        decreases n - i,
    {
        placed.push(false);
        i = i + 1;
    }
    let mut ord: Vec<usize> = Vec::new();
    while ord.len() < n
        invariant
            deps@.len() == n,
            dv == deps.deep_view(),
            graph_wf(dv),
            forall|j: int| 0 <= j < n ==> dv[j] =~= (#[trigger] deps@[j])@,
            placed@.len() == n,
            ord@.len() <= n,
            valid_order_prefix(dv, ord@),
            forall|j: int| 0 <= j < n ==> ((#[trigger] placed@[j]) <==> ord@.contains(j as usize)),
        decreases n - ord@.len(),
    {
        let mut found: Option<usize> = None;
        let mut c: usize = 0;
        while c < n
            invariant
                deps@.len() == n,
                dv.len() == n,
                placed@.len() == n,
                c <= n,
                forall|j: int| 0 <= j < n ==> dv[j] =~= (#[trigger] deps@[j])@,
                graph_wf(dv),
                found matches Some(f) ==> f < n && !placed@[f as int] && forall|k: int|
                    0 <= k < dv[f as int].len() ==> placed@[#[trigger] dv[f as int][k] as int],
                found is None ==> forall|j: int|
                    0 <= j < c && !(#[trigger] placed@[j]) ==> exists|k: int|
                        0 <= k < dv[j].len() && !placed@[#[trigger] dv[j][k] as int],
            ensures
                found matches Some(f) ==> f < n && !placed@[f as int] && forall|k: int|
                    0 <= k < dv[f as int].len() ==> placed@[#[trigger] dv[f as int][k] as int],
                found is None ==> forall|j: int|
                    0 <= j < n && !(#[trigger] placed@[j]) ==> exists|k: int|
                        0 <= k < dv[j].len() && !placed@[#[trigger] dv[j][k] as int],
            decreases n - c,
        {
            if !placed[c] {
                assert(forall|k: int|
                    0 <= k < dv[c as int].len() ==> (#[trigger] dv[c as int][k]) < n);
                if all_placed(&placed, &deps[c]) {
                    found = Some(c);
                    break;
                }
            }
            c = c + 1;
        }
        match found {
            Some(f) => {
                let ghost old_ord = ord@;
                placed.set(f, true);
                ord.push(f);
                proof {
                    assert(ord@ == old_ord.push(f));
                    assert(ord@.take(old_ord.len() as int) =~= old_ord);
                    assert forall|p: int, k: int|
                        0 <= p < ord@.len() && 0 <= k < dv[ord@[p] as int].len() implies ord@.take(
                        p,
                    ).contains(#[trigger] dv[ord@[p] as int][k]) by {
                        if p < old_ord.len() {
                            assert(old_ord.take(p).contains(dv[old_ord[p] as int][k]));
                            assert(ord@.take(p) =~= old_ord.take(p));
                        } else {
                            let d = dv[f as int][k] as int;
                            assert(old_ord.contains(d as usize));
                        }
                    }
                    assert forall|j: int| 0 <= j < n implies ((#[trigger] placed@[j])
                        <==> ord@.contains(j as usize)) by {
                        if j == f {
                            assert(ord@[ord@.len() - 1] == f);
                        } else {
                            if ord@.contains(j as usize) {
                                let q = choose|q: int| 0 <= q < ord@.len() && ord@[q] == j as usize;
                                assert(old_ord[q] == j as usize);
                            }
                            if old_ord.contains(j as usize) {
                                let q = choose|q: int|
                                    0 <= q < old_ord.len() && old_ord[q] == j as usize;
                                assert(ord@[q] == j as usize);
                            }
                        }
                    }
                }
            },
            None => {
                proof {
                    lemma_stuck_implies_cyclic(dv, placed@, ord@);
                }
                return None;
            },
        }
    }
    assert(valid_complete_order(dv, ord@));
    Some(ord)
}

} // verus!
