//! Counting, for each node, the shortest paths of a list that pass through it.

use vstd::prelude::*;
use crate::graph::lists_simple_paths;
use crate::model::{GraphModel, NodeId};
use crate::paths::{is_shortest_path, is_simple_path, passes_through, paths_through};

verus! {

/// `len` is the least number of nodes on any path of the list.
pub open spec fn is_least_length(paths: Seq<Vec<NodeId>>, len: nat) -> bool {
    &&& exists|i: int| 0 <= i < paths.len() && (#[trigger] paths[i]).len() == len
    &&& forall|i: int| 0 <= i < paths.len() ==> (#[trigger] paths[i]).len() >= len
}

/// Whether a path has `len` nodes and passes through `k`.
pub open spec fn counts_for(p: Seq<NodeId>, len: nat, k: NodeId) -> bool {
    p.len() == len && passes_through(p, k)
}

/// The number of paths among the first `upto` of the list that have `len` nodes and pass
/// through `k`.
pub open spec fn count_through(paths: Seq<Vec<NodeId>>, len: nat, k: NodeId, upto: nat) -> nat
    decreases upto,
{
    if upto == 0 {
        0
    } else {
        count_through(paths, len, k, (upto - 1) as nat) + if counts_for(
            paths[upto - 1]@,
            len,
            k,
        ) {
            1nat
        } else {
            0nat
        }
    }
}

/// The paths among the first `upto` of the list that have `len` nodes and pass through `k`.
pub open spec fn counted(paths: Seq<Vec<NodeId>>, len: nat, k: NodeId, upto: nat) -> Set<
    Seq<NodeId>,
> {
    Set::new(
        |p: Seq<NodeId>|
            exists|i: int| 0 <= i < upto && (#[trigger] paths[i])@ == p && counts_for(p, len, k),
    )
}

/// `k` occurs on `p` after the first node and before position `upto`.
pub open spec fn seen_before(p: Seq<NodeId>, k: NodeId, upto: int) -> bool {
    exists|i: int| 0 < i < upto && p[i] == k
}

/// No more paths are counted than were looked at.
pub proof fn lemma_count_bound(paths: Seq<Vec<NodeId>>, len: nat, k: NodeId, upto: nat)
    ensures
        count_through(paths, len, k, upto) <= upto,
    decreases upto,
{
    if upto > 0 {
        lemma_count_bound(paths, len, k, (upto - 1) as nat);
    }
}

/// A path of fewer than three nodes has nothing between its ends, so a list is counted as
/// zero for any such length.
pub proof fn lemma_count_short(paths: Seq<Vec<NodeId>>, len: nat, k: NodeId, upto: nat)
    requires
        len < 3,
    ensures
        count_through(paths, len, k, upto) == 0,
    decreases upto,
{
    if upto > 0 {
        lemma_count_short(paths, len, k, (upto - 1) as nat);
    }
}

/// In a list without repetitions, the count of the paths that qualify is the size of the
/// set of them.
pub proof fn lemma_count_is_cardinality(paths: Seq<Vec<NodeId>>, len: nat, k: NodeId, upto: nat)
    requires
        upto <= paths.len(),
        forall|i: int, j: int|
            0 <= i < j < paths.len() ==> (#[trigger] paths[i])@ != (#[trigger] paths[j])@,
    ensures
        counted(paths, len, k, upto).finite(),
        counted(paths, len, k, upto).len() == count_through(paths, len, k, upto),
    decreases upto,
{
    if upto == 0 {
        assert(counted(paths, len, k, upto) =~= Set::empty());
    } else {
        let before = counted(paths, len, k, (upto - 1) as nat);
        let last = paths[upto - 1]@;
        lemma_count_is_cardinality(paths, len, k, (upto - 1) as nat);
        if counts_for(last, len, k) {
            assert(!before.contains(last)) by {
                if before.contains(last) {
                    let i = choose|i: int|
                        0 <= i < upto - 1 && (#[trigger] paths[i])@ == last && counts_for(
                            last,
                            len,
                            k,
                        );
                    assert(paths[i]@ != paths[upto - 1]@);
                }
            }
            assert(counted(paths, len, k, upto) =~= before.insert(last)) by {
                assert forall|p: Seq<NodeId>| before.insert(last).contains(p) implies counted(
                    paths,
                    len,
                    k,
                    upto,
                ).contains(p) by {
                    if p == last {
                        assert(paths[upto - 1]@ == p);
                    } else {
                        let i = choose|i: int|
                            0 <= i < upto - 1 && (#[trigger] paths[i])@ == p && counts_for(
                                p,
                                len,
                                k,
                            );
                        assert(paths[i]@ == p);
                    }
                }
            }
        } else {
            assert(counted(paths, len, k, upto) =~= before) by {
                assert forall|p: Seq<NodeId>| before.contains(p) implies counted(
                    paths,
                    len,
                    k,
                    upto,
                ).contains(p) by {
                    let i = choose|i: int|
                        0 <= i < upto - 1 && (#[trigger] paths[i])@ == p && counts_for(p, len, k);
                    assert(paths[i]@ == p);
                }
            }
        }
    }
}

/// Where a list holds the simple paths from `a` to `b`, and `len` is the least length
/// among them, the paths counted for `k` are the shortest paths through `k`.
pub proof fn lemma_counted_are_shortest(
    m: GraphModel,
    a: NodeId,
    b: NodeId,
    paths: Seq<Vec<NodeId>>,
    len: nat,
    k: NodeId,
)
    requires
        lists_simple_paths(m, a, b, paths),
        is_least_length(paths, len),
    ensures
        counted(paths, len, k, paths.len()) == paths_through(m, a, b, k),
        paths_through(m, a, b, k).len() == count_through(paths, len, k, paths.len()),
{
    let listed = counted(paths, len, k, paths.len());
    let through = paths_through(m, a, b, k);
    let least = choose|i: int| 0 <= i < paths.len() && (#[trigger] paths[i]).len() == len;
    assert forall|p: Seq<NodeId>| listed.contains(p) implies through.contains(p) by {
        let i = choose|i: int|
            0 <= i < paths.len() && (#[trigger] paths[i])@ == p && counts_for(p, len, k);
        assert(is_simple_path(m, paths[i]@, a, b));
        assert forall|q: Seq<NodeId>| is_simple_path(m, q, a, b) implies q.len() >= p.len() by {
            let j = choose|j: int| 0 <= j < paths.len() && (#[trigger] paths[j])@ == q;
            assert(paths[j].len() >= len);
        }
    }
    assert forall|p: Seq<NodeId>| through.contains(p) implies listed.contains(p) by {
        let i = choose|i: int| 0 <= i < paths.len() && (#[trigger] paths[i])@ == p;
        assert(paths[i].len() >= len);
        assert(is_simple_path(m, paths[least]@, a, b));
        assert(paths[least]@.len() >= p.len());
    }
    assert(listed =~= through);
    lemma_count_is_cardinality(paths, len, k, paths.len());
}

/// Where no simple path leads from `a` to `b`, no shortest path passes through any node.
pub proof fn lemma_no_paths_none_through(m: GraphModel, a: NodeId, b: NodeId, k: NodeId)
    requires
        forall|p: Seq<NodeId>| !is_simple_path(m, p, a, b),
    ensures
        paths_through(m, a, b, k).len() == 0,
{
    assert(paths_through(m, a, b, k) =~= Set::empty());
}

/// The least number of nodes on any path of the list, or `None` for an empty list.
pub fn least_length(paths: &Vec<Vec<NodeId>>) -> (r: Option<usize>)
    ensures
        match r {
            Some(len) => is_least_length(paths@, len as nat),
            None => paths.len() == 0,
        },
{
    if paths.len() == 0 {
        return None;
    }
    let mut least: usize = paths[0].len();
    let ghost mut at: int = 0;
    let mut i: usize = 1;
    while i < paths.len()
        invariant
            1 <= i <= paths.len(),
            0 <= at < i,
            paths[at].len() == least,
            forall|j: int| 0 <= j < i ==> (#[trigger] paths[j]).len() >= least,
        decreases paths.len() - i,
    {
        if paths[i].len() < least {
            least = paths[i].len();
            proof {
                at = i as int;
            }
        }
        i += 1;
    }
    Some(least)
}

/// Adds one to the count of each node that lies on `path` strictly between its ends.
pub fn tally_path(path: &Vec<NodeId>, counts: &mut Vec<u128>)
    requires
        path@.no_duplicates(),
        forall|i: int| 0 <= i < path.len() ==> (#[trigger] path[i]) < old(counts).len(),
        forall|k: int| 0 <= k < old(counts).len() ==> (#[trigger] old(counts)[k]) < u128::MAX,
    ensures
        final(counts).len() == old(counts).len(),
        forall|k: int|
            0 <= k < old(counts).len() ==> (#[trigger] final(counts)[k]) == old(counts)[k] + if passes_through(
                path@,
                k as usize,
            ) {
                1int
            } else {
                0int
            },
{
    let ghost before = counts@;
    if path.len() < 3 {
        return ;
    }
    let mut i: usize = 1;
    while i < path.len() - 1
        invariant
            path.len() >= 3,
            1 <= i <= path.len() - 1,
            path@.no_duplicates(),
            counts.len() == before.len(),
            forall|j: int| 0 <= j < path.len() ==> (#[trigger] path[j]) < counts.len(),
            forall|k: int| 0 <= k < before.len() ==> (#[trigger] before[k]) < u128::MAX,
            forall|k: int|
                0 <= k < before.len() ==> (#[trigger] counts[k]) == before[k] + if seen_before(
                    path@,
                    k as usize,
                    i as int,
                ) {
                    1int
                } else {
                    0int
                },
        decreases path.len() - i,
    {
        let node = path[i];
        let ghost mid = counts@;
        assert(!seen_before(path@, node, i as int)) by {
            if seen_before(path@, node, i as int) {
                let j = choose|j: int| 0 < j < i && path@[j] == node;
                assert(path@[j] == path@[i as int]);
            }
        }
        counts.set(node, counts[node] + 1);
        proof {
            assert forall|k: int| 0 <= k < before.len() implies (#[trigger] counts[k]) == before[k]
                + if seen_before(path@, k as usize, i + 1) {
                1int
            } else {
                0int
            } by {
                if k == node {
                    assert(path@[i as int] == k as usize);
                    assert(seen_before(path@, k as usize, i + 1));
                } else {
                    assert(counts[k] == mid[k]);
                    if seen_before(path@, k as usize, i as int) {
                        let j = choose|j: int| 0 < j < i && path@[j] == k as usize;
                        assert(0 < j < i + 1 && path@[j] == k as usize);
                    }
                    if seen_before(path@, k as usize, i + 1) {
                        let j = choose|j: int| 0 < j < i + 1 && path@[j] == k as usize;
                        assert(j != i);
                        assert(0 < j < i && path@[j] == k as usize);
                    }
                }
            }
        }
        i += 1;
    }
}

/// Adds to the count of each node the number of paths in the list that have `len` nodes
/// and pass through it.
pub fn tally_paths(paths: &Vec<Vec<NodeId>>, len: usize, counts: &mut Vec<u128>)
    requires
        forall|i: int| 0 <= i < paths.len() ==> (#[trigger] paths[i])@.no_duplicates(),
        forall|i: int, j: int|
            0 <= i < paths.len() && 0 <= j < paths[i].len() ==> (#[trigger] paths[i][j]) < old(
                counts,
            ).len(),
        forall|k: int|
            0 <= k < old(counts).len() ==> (#[trigger] old(counts)[k]) + paths.len() <= u128::MAX,
    ensures
        final(counts).len() == old(counts).len(),
        forall|k: int|
            0 <= k < old(counts).len() ==> (#[trigger] final(counts)[k]) == old(counts)[k]
                + count_through(paths@, len as nat, k as usize, paths.len() as nat),
{
    let ghost before = counts@;
    let mut i: usize = 0;
    while i < paths.len()
        invariant
            i <= paths.len(),
            counts.len() == before.len(),
            forall|x: int| 0 <= x < paths.len() ==> (#[trigger] paths[x])@.no_duplicates(),
            forall|x: int, j: int|
                0 <= x < paths.len() && 0 <= j < paths[x].len() ==> (#[trigger] paths[x][j])
                    < counts.len(),
            forall|k: int|
                0 <= k < before.len() ==> (#[trigger] before[k]) + paths.len() <= u128::MAX,
            forall|k: int|
                0 <= k < before.len() ==> (#[trigger] counts[k]) == before[k] + count_through(
                    paths@,
                    len as nat,
                    k as usize,
                    i as nat,
                ),
        decreases paths.len() - i,
    {
        if paths[i].len() == len {
            proof {
                assert forall|k: int| 0 <= k < counts.len() implies (#[trigger] counts[k])
                    < u128::MAX by {
                    lemma_count_bound(paths@, len as nat, k as usize, i as nat);
                    assert(counts[k] == before[k] + count_through(
                        paths@,
                        len as nat,
                        k as usize,
                        i as nat,
                    ));
                }
                assert forall|j: int| 0 <= j < paths[i as int].len() implies (
                #[trigger] paths[i as int][j]) < counts.len() by {
                    assert(paths[i as int][j] < counts.len());
                }
            }
            tally_path(&paths[i], counts);
        }
        i += 1;
    }
}

} // verus!
