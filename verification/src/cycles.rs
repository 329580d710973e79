//! Cycles of calls: a depth-first walk over all functions that reports a
//! cycle whenever a call leads back into the path that the walk is on.
//!
//! The walk keeps one set of visited functions for all its roots, so a
//! function that was explored from one root is not explored again. It finds
//! a cycle in every group of functions that call one another in a circle; it
//! does not list every cycle there is.
use std::collections::HashSet;
use vstd::prelude::*;
use crate::chains::chain_views;
use crate::call_graph::CallGraph;
use crate::seq_util::lemma_take_all;

verus! {

broadcast use vstd::std_specs::hash::group_hash_axioms;

/// The state of the walk: the functions that were entered, the path from
/// the root to the function that is being explored, and the cycles found.
pub struct Walk {
    pub visited: Set<u128>,
    pub path: Seq<u128>,
    pub cycles: Seq<Seq<u128>>,
}

/// `position` is the first place of `id` in `path`.
pub open spec fn is_first_position(path: Seq<u128>, id: u128, position: int) -> bool {
    &&& 0 <= position < path.len()
    &&& path[position] == id
    &&& forall|j: int| 0 <= j < position ==> path[j] != id
}

/// The first place of `id` in `path`.
pub open spec fn first_position(path: Seq<u128>, id: u128) -> int {
    choose|position: int| is_first_position(path, id, position)
}

/// The walk after it entered `id`, explored its callees and left it again.
/// `budget` bounds the depth of the walk below `id`; a walk is never deeper
/// than the graph has functions.
pub open spec fn visit<G: CallGraph>(graph: &G, id: u128, walk: Walk, budget: nat) -> Walk
    decreases budget, 0nat,
{
    if budget == 0 {
        walk
    } else {
        let entered = Walk {
            visited: walk.visited.insert(id),
            path: walk.path.push(id),
            cycles: walk.cycles,
        };
        let after = visit_edges(graph, (graph.callee_fn())(id), entered, (budget - 1) as nat);
        Walk { visited: after.visited, path: after.path.drop_last(), cycles: after.cycles }
    }
}

/// The walk after it followed the calls to `callees`, in order: a callee
/// that was not visited is explored; a callee on the path closes a cycle,
/// which is the path from the callee's first place to its end; any other
/// callee, and one that is no function of the graph, is passed over.
pub open spec fn visit_edges<G: CallGraph>(graph: &G, callees: Seq<u128>, walk: Walk, budget: nat) -> Walk
    decreases budget, 1 + callees.len(),
{
    if callees.len() == 0 {
        walk
    } else {
        let before = visit_edges(graph, callees.drop_last(), walk, budget);
        let callee = callees.last();
        if !graph.function_map().contains_key(callee) {
            before
        } else if !before.visited.contains(callee) {
            visit(graph, callee, before, budget)
        } else if before.path.contains(callee) {
            Walk {
                cycles: before.cycles.push(before.path.skip(first_position(before.path, callee))),
                ..before
            }
        } else {
            before
        }
    }
}

/// The walk after it started from each of `roots` that is a function of
/// the graph and was not visited before, in order.
pub open spec fn visit_roots<G: CallGraph>(graph: &G, roots: Seq<u128>, walk: Walk, budget: nat) -> Walk
    decreases roots.len(),
{
    if roots.len() == 0 {
        walk
    } else {
        let before = visit_roots(graph, roots.drop_last(), walk, budget);
        let root = roots.last();
        if graph.function_map().contains_key(root) && !before.visited.contains(root) {
            visit(graph, root, before, budget)
        } else {
            before
        }
    }
}

/// The cycles that the walk from `roots` finds, as identifiers.
pub open spec fn cycles_from<G: CallGraph>(graph: &G, roots: Seq<u128>) -> Seq<Seq<u128>> {
    visit_roots(
        graph,
        roots,
        Walk { visited: Set::empty(), path: Seq::empty(), cycles: Seq::empty() },
        graph.function_map().dom().len(),
    ).cycles
}

/// The functions of the graph that the walk has not entered.
pub open spec fn unvisited<G: CallGraph>(graph: &G, visited: Set<u128>) -> Set<u128> {
    graph.function_map().dom().difference(visited)
}

/// Entering a function forgets no visited function.
proof fn lemma_visit_grows<G: CallGraph>(graph: &G, id: u128, walk: Walk, budget: nat)
    ensures
        walk.visited.subset_of(visit(graph, id, walk, budget).visited),
    decreases budget, 0nat,
{
    if budget > 0 {
        let entered = Walk {
            visited: walk.visited.insert(id),
            path: walk.path.push(id),
            cycles: walk.cycles,
        };
        lemma_edges_grow(graph, (graph.callee_fn())(id), entered, (budget - 1) as nat);
    }
}

/// Following calls forgets no visited function.
proof fn lemma_edges_grow<G: CallGraph>(graph: &G, callees: Seq<u128>, walk: Walk, budget: nat)
    ensures
        walk.visited.subset_of(visit_edges(graph, callees, walk, budget).visited),
    decreases budget, 1 + callees.len(),
{
    if callees.len() > 0 {
        lemma_edges_grow(graph, callees.drop_last(), walk, budget);
        let before = visit_edges(graph, callees.drop_last(), walk, budget);
        let callee = callees.last();
        if graph.function_map().contains_key(callee) && !before.visited.contains(callee) {
            lemma_visit_grows(graph, callee, before, budget);
        }
    }
}

/// The more functions were entered, the fewer are left.
proof fn lemma_unvisited_shrinks<G: CallGraph>(graph: &G, fewer: Set<u128>, more: Set<u128>)
    requires
        graph.function_map().dom().finite(),
        fewer.subset_of(more),
    ensures
        unvisited(graph, fewer).finite(),
        unvisited(graph, more).len() <= unvisited(graph, fewer).len(),
        unvisited(graph, fewer).len() <= graph.function_map().dom().len(),
{
    vstd::set_lib::lemma_len_subset(unvisited(graph, fewer), graph.function_map().dom());
    vstd::set_lib::lemma_len_subset(unvisited(graph, more), unvisited(graph, fewer));
}

/// With a bound of at least the number of functions that are left, a
/// larger bound changes nothing in what entering a function gives.
proof fn lemma_visit_bound<G: CallGraph>(graph: &G, id: u128, walk: Walk, budget: nat, larger: nat)
    requires
        graph.function_map().dom().finite(),
        graph.function_map().contains_key(id),
        !walk.visited.contains(id),
        unvisited(graph, walk.visited).len() <= budget <= larger,
    ensures
        visit(graph, id, walk, larger) == visit(graph, id, walk, budget),
    decreases budget, 0nat,
{
    let left = unvisited(graph, walk.visited);
    lemma_unvisited_shrinks(graph, walk.visited, walk.visited);
    assert(left.contains(id));
    assert(left.len() > 0) by {
        if left.len() == 0 {
            assert(left =~= Set::<u128>::empty());
        }
    }
    let entered = Walk {
        visited: walk.visited.insert(id),
        path: walk.path.push(id),
        cycles: walk.cycles,
    };
    assert(unvisited(graph, entered.visited) =~= left.remove(id));
    lemma_edges_bound(
        graph,
        (graph.callee_fn())(id),
        entered,
        (budget - 1) as nat,
        (larger - 1) as nat,
    );
}

/// With a bound of at least the number of functions that are left, a
/// larger bound changes nothing in what following calls gives.
proof fn lemma_edges_bound<G: CallGraph>(
    graph: &G,
    callees: Seq<u128>,
    walk: Walk,
    budget: nat,
    larger: nat,
)
    requires
        graph.function_map().dom().finite(),
        unvisited(graph, walk.visited).len() <= budget <= larger,
    ensures
        visit_edges(graph, callees, walk, larger) == visit_edges(graph, callees, walk, budget),
    decreases budget, 1 + callees.len(),
{
    if callees.len() > 0 {
        lemma_edges_bound(graph, callees.drop_last(), walk, budget, larger);
        let before = visit_edges(graph, callees.drop_last(), walk, budget);
        let callee = callees.last();
        if graph.function_map().contains_key(callee) && !before.visited.contains(callee) {
            lemma_edges_grow(graph, callees.drop_last(), walk, budget);
            lemma_unvisited_shrinks(graph, walk.visited, before.visited);
            lemma_visit_bound(graph, callee, before, budget, larger);
        }
    }
}

/// The bound on the depth of the walk cuts nothing short: with any larger
/// bound the walk from `roots` finds the same cycles.
pub proof fn lemma_depth_bound_is_ample<G: CallGraph>(graph: &G, roots: Seq<u128>, larger: nat)
    requires
        graph.function_map().dom().finite(),
        graph.function_map().dom().len() <= larger,
    ensures
        visit_roots(
            graph,
            roots,
            Walk { visited: Set::empty(), path: Seq::empty(), cycles: Seq::empty() },
            larger,
        ) == visit_roots(
            graph,
            roots,
            Walk { visited: Set::empty(), path: Seq::empty(), cycles: Seq::empty() },
            graph.function_map().dom().len(),
        ),
    decreases roots.len(),
{
    let start = Walk { visited: Set::empty(), path: Seq::empty(), cycles: Seq::empty() };
    let budget = graph.function_map().dom().len();
    if roots.len() > 0 {
        lemma_depth_bound_is_ample(graph, roots.drop_last(), larger);
        let before = visit_roots(graph, roots.drop_last(), start, budget);
        let root = roots.last();
        if graph.function_map().contains_key(root) && !before.visited.contains(root) {
            lemma_unvisited_shrinks(graph, before.visited, before.visited);
            lemma_visit_bound(graph, root, before, budget, larger);
        }
    }
}

/// The first place of `id` in `path`, if it is on it.
pub fn position_in(path: &Vec<u128>, id: u128) -> (found: Option<usize>)
    ensures
        match found {
            Some(position) => path@.contains(id) && position == first_position(path@, id)
                && is_first_position(path@, id, position as int),
            None => !path@.contains(id),
        },
{
    let mut i: usize = 0;
    while i < path.len()
        invariant
            i <= path@.len(),
            forall|j: int| 0 <= j < i ==> path@[j] != id,
        decreases path@.len() - i,
    {
        if path[i] == id {
            proof {
                assert(is_first_position(path@, id, i as int));
                let chosen = first_position(path@, id);
                assert(is_first_position(path@, id, chosen));
            }
            return Some(i);
        }
        i += 1;
    }
    None
}

/// The part of `path` from place `from` to its end.
pub fn tail_from(path: &Vec<u128>, from: usize) -> (tail: Vec<u128>)
    requires
        from <= path@.len(),
    ensures
        tail@ == path@.skip(from as int),
{
    let mut tail: Vec<u128> = Vec::new();
    let mut i: usize = from;
    while i < path.len()
        invariant
            from <= i <= path@.len(),
            tail@ == path@.subrange(from as int, i as int),
        decreases path@.len() - i,
    {
        tail.push(path[i]);
        i += 1;
        assert(tail@ =~= path@.subrange(from as int, i as int));
    }
    assert(tail@ =~= path@.skip(from as int));
    tail
}

/// Enters `id`, explores its callees and leaves it again.
pub fn explore<G: CallGraph>(
    graph: &G,
    id: u128,
    visited: &mut HashSet<u128>,
    path: &mut Vec<u128>,
    cycles: &mut Vec<Vec<u128>>,
    budget: usize,
)
    ensures
        (Walk {
            visited: final(visited)@,
            path: final(path)@,
            cycles: chain_views(final(cycles)@),
        }) == visit(
            graph,
            id,
            Walk { visited: old(visited)@, path: old(path)@, cycles: chain_views(old(cycles)@) },
            budget as nat,
        ),
        final(path)@ == old(path)@,
    decreases budget,
{
    if budget == 0 {
        return ;
    }
    let ghost start = Walk {
        visited: visited@,
        path: path@,
        cycles: chain_views(cycles@),
    };
    visited.insert(id);
    path.push(id);
    let ghost entered = Walk {
        visited: visited@,
        path: path@,
        cycles: chain_views(cycles@),
    };
    let callees = graph.callee_list(&id);
    let ghost list = (graph.callee_fn())(id);
    let mut k: usize = 0;
    while k < callees.len()
        invariant
            k <= callees@.len(),
            budget > 0,
            list == callees@,
            path@ == entered.path,
            (Walk { visited: visited@, path: path@, cycles: chain_views(cycles@) }) == visit_edges(
                graph,
                list.take(k as int),
                entered,
                (budget - 1) as nat,
            ),
        decreases callees@.len() - k,
    {
        let callee = callees[k];
        proof {
            assert(list.take(k + 1).drop_last() =~= list.take(k as int));
            assert(list.take(k + 1).last() == callee);
        }
        if graph.function_by_id(&callee).is_some() {
            if !visited.contains(&callee) {
                explore(graph, callee, visited, path, cycles, budget - 1);
            } else {
                match position_in(path, callee) {
                    Some(position) => {
                        let ghost held = chain_views(cycles@);
                        let cycle = tail_from(path, position);
                        cycles.push(cycle);
                        proof {
                            assert(chain_views(cycles@) =~= held.push(cycle@));
                        }
                    },
                    None => {},
                }
            }
        }
        k += 1;
    }
    proof {
        lemma_take_all(list);
    }
    let ghost after = Walk { visited: visited@, path: path@, cycles: chain_views(cycles@) };
    path.pop();
    proof {
        assert(after == visit_edges(graph, list, entered, (budget - 1) as nat));
        assert(path@ =~= after.path.drop_last());
        assert(entered.visited =~= start.visited.insert(id));
        assert(entered.path =~= start.path.push(id));
    }
}

/// The cycles that the walk from `roots` finds, as identifiers.
pub fn find_cycles<G: CallGraph>(graph: &G, roots: &Vec<u128>) -> (cycles: Vec<Vec<u128>>)
    ensures
        chain_views(cycles@) == cycles_from(graph, roots@),
{
    let mut cycles: Vec<Vec<u128>> = Vec::new();
    let mut visited: HashSet<u128> = HashSet::new();
    let mut path: Vec<u128> = Vec::new();
    let budget = graph.walk().len();
    let ghost start = Walk { visited: Set::empty(), path: Seq::empty(), cycles: Seq::empty() };
    let mut i: usize = 0;
    proof {
        assert(chain_views(cycles@) =~= Seq::<Seq<u128>>::empty());
        assert(budget == graph.function_map().dom().len()) by {
            let ids = choose|ids: Seq<u128>|
                crate::call_graph::is_walk_of(ids, graph.function_map()) && ids.len() == budget;
            ids.unique_seq_to_set();
        }
    }
    while i < roots.len()
        invariant
            i <= roots@.len(),
            budget == graph.function_map().dom().len(),
            (Walk { visited: visited@, path: path@, cycles: chain_views(cycles@) }) == visit_roots(
                graph,
                roots@.take(i as int),
                start,
                budget as nat,
            ),
        decreases roots@.len() - i,
    {
        let root = roots[i];
        proof {
            assert(roots@.take(i + 1).drop_last() =~= roots@.take(i as int));
            assert(roots@.take(i + 1).last() == root);
        }
        if graph.function_by_id(&root).is_some() && !visited.contains(&root) {
            explore(graph, root, &mut visited, &mut path, &mut cycles, budget);
        }
        i += 1;
    }
    proof {
        lemma_take_all(roots@);
    }
    cycles
}

} // verus!
