//! Call chains: the paths that a bounded expansion of callees emits.
//!
//! The expansion walks depth first and keeps one set of visited functions
//! for the whole walk, so a function is expanded at most once, whichever
//! branch reaches it first. A path ends, and is emitted, at a function
//! without callees and at the function that is the `max_depth`-th of its
//! path. A branch that runs into a visited function emits nothing.
use vstd::prelude::*;

verus! {

/// The contents of a list of chains.
pub open spec fn chain_views(chains: Seq<Vec<u128>>) -> Seq<Seq<u128>> {
    Seq::new(chains.len(), |i: int| chains[i]@)
}

/// Each of `chains` with `id` put in front.
pub open spec fn prefixed(id: u128, chains: Seq<Seq<u128>>) -> Seq<Seq<u128>> {
    Seq::new(chains.len(), |i: int| seq![id] + chains[i])
}

/// The chains that the expansion of `id` at `depth` emits, and the visited
/// set after it. `callees` gives the callees of a function in the order in
/// which they are expanded.
pub open spec fn chains_from(
    callees: spec_fn(u128) -> Seq<u128>,
    id: u128,
    visited: Set<u128>,
    depth: nat,
    max_depth: nat,
) -> (Seq<Seq<u128>>, Set<u128>)
    decreases max_depth - depth, 1nat, 0nat,
{
    if depth >= max_depth || visited.contains(id) {
        (Seq::empty(), visited)
    } else if callees(id).len() == 0 || depth + 1 >= max_depth {
        (seq![seq![id]], visited.insert(id))
    } else {
        chains_over(callees, id, callees(id), visited.insert(id), depth, max_depth)
    }
}

/// The chains that the expansion of the callees `list` of `id` emits one
/// after the other, each with `id` in front, and the visited set after them.
pub open spec fn chains_over(
    callees: spec_fn(u128) -> Seq<u128>,
    id: u128,
    list: Seq<u128>,
    visited: Set<u128>,
    depth: nat,
    max_depth: nat,
) -> (Seq<Seq<u128>>, Set<u128>)
    decreases max_depth - depth, 0nat, list.len(),
{
    if list.len() == 0 || depth >= max_depth {
        (Seq::empty(), visited)
    } else {
        let before = chains_over(callees, id, list.drop_last(), visited, depth, max_depth);
        let last = chains_from(callees, list.last(), before.1, depth + 1, max_depth);
        (before.0 + prefixed(id, last.0), last.1)
    }
}

/// A copy of `chain` with `id` put in front.
pub fn prefixed_chain(id: u128, chain: &Vec<u128>) -> (out: Vec<u128>)
    ensures
        out@ == seq![id] + chain@,
{
    let mut out: Vec<u128> = Vec::new();
    out.push(id);
    let mut i: usize = 0;
    while i < chain.len()
        invariant
            i <= chain@.len(),
            out@ == seq![id] + chain@.take(i as int),
        decreases chain@.len() - i,
    {
        out.push(chain[i]);
        i += 1;
        assert(out@ =~= seq![id] + chain@.take(i as int));
    }
    assert(chain@.take(chain@.len() as int) =~= chain@);
    out
}

/// Appends to `chains` a copy of each chain of `sub` with `id` put in front.
pub fn append_prefixed(chains: &mut Vec<Vec<u128>>, id: u128, sub: &Vec<Vec<u128>>)
    ensures
        chain_views(final(chains)@) == chain_views(old(chains)@) + prefixed(id, chain_views(sub@)),
{
    let ghost base = chain_views(chains@);
    let mut j: usize = 0;
    assert(chain_views(chains@) =~= base + prefixed(id, chain_views(sub@.take(0))));
    while j < sub.len()
        invariant
            j <= sub@.len(),
            chain_views(chains@) == base + prefixed(id, chain_views(sub@.take(j as int))),
        decreases sub@.len() - j,
    {
        let chain = prefixed_chain(id, &sub[j]);
        let ghost held = chains@;
        let ghost done = prefixed(id, chain_views(sub@.take(j as int)));
        chains.push(chain);
        j += 1;
        proof {
            assert(chain_views(chains@) =~= chain_views(held).push(chain@));
            assert(prefixed(id, chain_views(sub@.take(j as int))) =~= done.push(chain@));
            assert(chain_views(chains@) =~= base + done.push(chain@));
        }
    }
    assert(sub@.take(sub@.len() as int) =~= sub@);
}

} // verus!
