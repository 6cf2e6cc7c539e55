//! Level-by-level walk of a mesh BVH, for the node inspector.
//!
//! Nodes sit in an array; node 0 is the root. An internal node's children
//! are the next node and the node `child_offset` further on; leaves have no
//! children. The inspector shows the nodes of one level, in breadth-first
//! order.
use vstd::prelude::*;

verus! {

/// What the walk reads of a BVH node.
#[derive(Clone, Copy)]
pub struct NodeLink {
    /// Whether the node is a leaf.
    pub is_leaf: bool,
    /// Distance from the node to its second child.
    pub child_offset: usize,
}

/// The children of the nodes `cur`, in order.
pub open spec fn next_level(nodes: Seq<NodeLink>, cur: Seq<int>) -> Seq<int>
    decreases cur.len(),
{
    if cur.len() == 0 {
        seq![]
    } else {
        let i = cur.last();
        next_level(nodes, cur.drop_last()) + if nodes[i].is_leaf {
            seq![]
        } else {
            seq![i + 1, i + nodes[i].child_offset]
        }
    }
}

/// The nodes of level `l`, in breadth-first order.
pub open spec fn level_nodes(nodes: Seq<NodeLink>, l: nat) -> Seq<int>
    decreases l,
{
    if l == 0 {
        seq![0]
    } else {
        next_level(nodes, level_nodes(nodes, (l - 1) as nat))
    }
}

/// Whether every node in `s` exists.
pub open spec fn all_in(nodes: Seq<NodeLink>, s: Seq<int>) -> bool {
    forall|k: int| 0 <= k < s.len() ==> 0 <= #[trigger] s[k] < nodes.len()
}

/// Whether the second child of every internal node in `s` has an index that
/// fits in a `usize`.
pub open spec fn offsets_fit(nodes: Seq<NodeLink>, s: Seq<int>) -> bool {
    forall|k: int|
        0 <= k < s.len() && !nodes[s[k]].is_leaf ==> #[trigger] s[k] + nodes[s[k]].child_offset
            <= usize::MAX
}

/// Whether the walk down to level `level` only meets existing nodes: every
/// node of the levels up to `level` exists and has its second child's index
/// in range of a `usize`, and the first node of the level below exists too
/// (the walk looks at it before stopping).
pub open spec fn walk_defined(nodes: Seq<NodeLink>, level: nat) -> bool {
    &&& forall|l: nat|
        l <= level ==> all_in(nodes, #[trigger] level_nodes(nodes, l)) && offsets_fit(
            nodes,
            level_nodes(nodes, l),
        )
    &&& level_nodes(nodes, level + 1).len() > 0 ==> level_nodes(nodes, level + 1)[0] < nodes.len()
}

/// The nodes of BVH level `level` in breadth-first order (empty for a
/// negative level or an empty tree).
pub fn nodes_at_level(nodes: &Vec<NodeLink>, level: i32) -> (r: Vec<usize>)
    requires
        level >= 0 && nodes@.len() > 0 ==> walk_defined(nodes@, level as nat),
    ensures
        level < 0 || nodes@.len() == 0 ==> r@.len() == 0,
        level >= 0 && nodes@.len() > 0 ==> r@.map_values(|i: usize| i as int) == level_nodes(
            nodes@,
            level as nat,
        ),
{
    if level < 0 || nodes.len() == 0 {
        return Vec::new();
    }
    let n = nodes.len();
    let mut cur: Vec<usize> = Vec::new();
    cur.push(0);
    assert(cur@.map_values(|i: usize| i as int) =~= level_nodes(nodes@, 0));
    let mut l: i32 = 0;
    while l < level
        invariant
            0 <= l <= level,
            n == nodes@.len(),
            walk_defined(nodes@, level as nat),
            cur@.map_values(|i: usize| i as int) == level_nodes(nodes@, l as nat),
        decreases level - l,
    {
        if cur.len() == 0 {
            proof {
                lemma_empty_levels_stay_empty(nodes@, l as nat, level as nat);
            }
            return cur;
        }
        let ghost prev = level_nodes(nodes@, l as nat);
        assert(all_in(nodes@, level_nodes(nodes@, l as nat)));
        assert(offsets_fit(nodes@, level_nodes(nodes@, l as nat)));
        let mut next: Vec<usize> = Vec::new();
        let mut k: usize = 0;
        while k < cur.len()
            invariant
                k <= cur@.len(),
                n == nodes@.len(),
                prev == cur@.map_values(|i: usize| i as int),
                all_in(nodes@, prev),
                offsets_fit(nodes@, prev),
                next@.map_values(|i: usize| i as int) == next_level(nodes@, prev.subrange(0, k as int)),
            decreases cur@.len() - k,
        {
            let i = cur[k];
            assert(prev[k as int] == i as int);
            assert(0 <= prev[k as int] < nodes@.len());
            let node = nodes[i];
            proof {
                assert(prev.subrange(0, k + 1).drop_last() =~= prev.subrange(0, k as int));
                assert(prev.subrange(0, k + 1).last() == i as int);
            }
            if !node.is_leaf {
                assert(prev[k as int] + nodes@[prev[k as int]].child_offset <= usize::MAX);
                next.push(i + 1);
                next.push(i + node.child_offset);
            }
            proof {
                assert(next@.map_values(|i: usize| i as int) =~= next_level(
                    nodes@,
                    prev.subrange(0, k + 1),
                ));
            }
            k += 1;
        }
        assert(prev.subrange(0, cur@.len() as int) =~= prev);
        cur = next;
        l += 1;
    }
    cur
}

/// Whether `nodes_at_level(nodes, level)` may be called: `true` for a
/// negative level or an empty tree, else whether the walk is defined.
pub fn walk_is_defined(nodes: &Vec<NodeLink>, level: i32) -> (r: bool)
    ensures
        r == (level >= 0 && nodes@.len() > 0 ==> walk_defined(nodes@, level as nat)),
{
    if level < 0 || nodes.len() == 0 {
        return true;
    }
    let n = nodes.len();
    let mut cur: Vec<usize> = Vec::new();
    cur.push(0);
    assert(cur@.map_values(|i: usize| i as int) =~= level_nodes(nodes@, 0));
    let mut l: i32 = 0;
    loop
        invariant
            0 <= l <= level,
            n == nodes@.len(),
            n > 0,
            cur@.map_values(|i: usize| i as int) == level_nodes(nodes@, l as nat),
            forall|m: nat|
                m < l ==> all_in(nodes@, #[trigger] level_nodes(nodes@, m)) && offsets_fit(
                    nodes@,
                    level_nodes(nodes@, m),
                ),
        decreases level - l,
    {
        let ghost prev = level_nodes(nodes@, l as nat);
        if cur.len() == 0 {
            proof {
                assert forall|m: nat| m <= level implies all_in(nodes@, #[trigger] level_nodes(nodes@, m))
                    && offsets_fit(nodes@, level_nodes(nodes@, m)) by {
                    if m >= l {
                        lemma_empty_levels_stay_empty(nodes@, l as nat, m);
                    }
                }
                lemma_empty_levels_stay_empty(nodes@, l as nat, (level + 1) as nat);
            }
            return true;
        }
        let mut next: Vec<usize> = Vec::new();
        let mut k: usize = 0;
        while k < cur.len()
            invariant
                k <= cur@.len(),
                n == nodes@.len(),
                prev == cur@.map_values(|i: usize| i as int),
                prev == level_nodes(nodes@, l as nat),
                0 <= l <= level,
                n > 0,
                all_in(nodes@, prev.subrange(0, k as int)),
                offsets_fit(nodes@, prev.subrange(0, k as int)),
                next@.map_values(|i: usize| i as int) == next_level(nodes@, prev.subrange(0, k as int)),
            decreases cur@.len() - k,
        {
            let i = cur[k];
            assert(prev[k as int] == i as int);
            if i >= n {
                assert(!all_in(nodes@, prev) && prev[k as int] >= nodes@.len());
                assert(!walk_defined(nodes@, level as nat) && level_nodes(nodes@, l as nat) == prev);
                return false;
            }
            let node = nodes[i];
            proof {
                assert(prev.subrange(0, k + 1).drop_last() =~= prev.subrange(0, k as int));
                assert(prev.subrange(0, k + 1).last() == i as int);
            }
            if !node.is_leaf {
                match i.checked_add(node.child_offset) {
                    Some(second) => {
                        next.push(i + 1);
                        next.push(second);
                    },
                    None => {
                        assert(!offsets_fit(nodes@, prev) && prev[k as int] == i);
                        assert(!walk_defined(nodes@, level as nat) && level_nodes(nodes@, l as nat)
                            == prev);
                        return false;
                    },
                }
            }
            proof {
                let s = prev.subrange(0, k + 1);
                assert(next@.map_values(|i: usize| i as int) =~= next_level(nodes@, s));
                assert forall|j: int| 0 <= j < s.len() implies 0 <= #[trigger] s[j] < nodes@.len() by {
                    if j < k {
                        assert(s[j] == prev.subrange(0, k as int)[j]);
                    }
                }
                assert forall|j: int| 0 <= j < s.len() && !nodes@[s[j]].is_leaf implies #[trigger] s[j]
                    + nodes@[s[j]].child_offset <= usize::MAX by {
                    if j < k {
                        assert(s[j] == prev.subrange(0, k as int)[j]);
                    }
                }
            }
            k += 1;
        }
        assert(prev.subrange(0, cur@.len() as int) =~= prev);
        assert(next@.map_values(|i: usize| i as int) == level_nodes(nodes@, (l + 1) as nat));
        if l == level {
            let ok = next.len() == 0 || next[0] < n;
            proof {
                if next@.len() > 0 {
                    assert(next@.map_values(|i: usize| i as int)[0] == next@[0] as int);
                }
            }
            return ok;
        }
        cur = next;
        l += 1;
    }
}

/// The children of a single node: none for a leaf, else the next node and
/// the node `child_offset` further on, in that order.
pub proof fn lemma_next_level_single(nodes: Seq<NodeLink>, i: int)
    ensures
        next_level(nodes, seq![i]) == if nodes[i].is_leaf {
            Seq::<int>::empty()
        } else {
            seq![i + 1, i + nodes[i].child_offset]
        },
{
    assert(seq![i].drop_last() =~= Seq::<int>::empty());
    assert(next_level(nodes, Seq::<int>::empty()) =~= Seq::<int>::empty());
    assert(next_level(nodes, seq![i]) =~= if nodes[i].is_leaf {
        Seq::<int>::empty()
    } else {
        seq![i + 1, i + nodes[i].child_offset]
    });
}

/// The level below a run of nodes is the level below its first part followed
/// by the level below the rest: every node contributes its children, in
/// level order, whatever stands before or after it.
pub proof fn lemma_next_level_concat(nodes: Seq<NodeLink>, a: Seq<int>, b: Seq<int>)
    ensures
        next_level(nodes, a + b) == next_level(nodes, a) + next_level(nodes, b),
    decreases b.len(),
{
    if b.len() == 0 {
        assert(a + b =~= a);
        assert(next_level(nodes, a) + next_level(nodes, b) =~= next_level(nodes, a));
    } else {
        lemma_next_level_concat(nodes, a, b.drop_last());
        assert((a + b).drop_last() =~= a + b.drop_last());
        assert((a + b).last() == b.last());
        assert(next_level(nodes, a + b) =~= next_level(nodes, a) + next_level(nodes, b));
    }
}

/// Each internal node of a run has both its children in the level below,
/// and the level below holds two nodes per internal node of the run.
pub proof fn lemma_next_level_children(nodes: Seq<NodeLink>, cur: Seq<int>, k: int)
    requires
        0 <= k < cur.len(),
        !nodes[cur[k]].is_leaf,
    ensures
        next_level(nodes, cur).contains(cur[k] + 1),
        next_level(nodes, cur).contains(cur[k] + nodes[cur[k]].child_offset),
{
    let pre = cur.take(k);
    let mid = seq![cur[k]];
    let post = cur.skip(k + 1);
    assert(cur =~= pre + mid + post);
    lemma_next_level_concat(nodes, pre + mid, post);
    lemma_next_level_concat(nodes, pre, mid);
    lemma_next_level_single(nodes, cur[k]);
    let np = next_level(nodes, pre);
    let n = next_level(nodes, cur);
    assert(n[np.len() as int] == cur[k] + 1);
    assert(n[np.len() as int + 1] == cur[k] + nodes[cur[k]].child_offset);
}

/// Count of internal nodes in a run.
pub open spec fn internal_count(nodes: Seq<NodeLink>, cur: Seq<int>) -> nat
    decreases cur.len(),
{
    if cur.len() == 0 {
        0
    } else {
        internal_count(nodes, cur.drop_last()) + if nodes[cur.last()].is_leaf {
            0nat
        } else {
            1nat
        }
    }
}

/// The level below a run holds exactly two nodes per internal node of it.
pub proof fn lemma_next_level_len_exact(nodes: Seq<NodeLink>, cur: Seq<int>)
    ensures
        next_level(nodes, cur).len() == 2 * internal_count(nodes, cur),
    decreases cur.len(),
{
    if cur.len() > 0 {
        lemma_next_level_len_exact(nodes, cur.drop_last());
        lemma_next_level_concat(nodes, cur.drop_last(), seq![cur.last()]);
        assert(cur.drop_last() + seq![cur.last()] =~= cur);
        lemma_next_level_single(nodes, cur.last());
    }
}

proof fn lemma_empty_levels_stay_empty(nodes: Seq<NodeLink>, l: nat, m: nat)
    requires
        level_nodes(nodes, l).len() == 0,
        l <= m,
    ensures
        level_nodes(nodes, m).len() == 0,
    decreases m - l,
{
    if l < m {
        assert(level_nodes(nodes, l + 1) == next_level(nodes, level_nodes(nodes, l)));
        lemma_empty_levels_stay_empty(nodes, l + 1, m);
    }
}

proof fn lemma_next_level_len(nodes: Seq<NodeLink>, cur: Seq<int>)
    ensures
        next_level(nodes, cur).len() <= 2 * cur.len(),
    decreases cur.len(),
{
    if cur.len() > 0 {
        lemma_next_level_len(nodes, cur.drop_last());
    }
}

/// Each level holds at most twice as many nodes as the one above it, so
/// level `l` holds at most `2^l` nodes.
pub proof fn lemma_level_size_doubles(nodes: Seq<NodeLink>, l: nat)
    ensures
        level_nodes(nodes, l + 1).len() <= 2 * level_nodes(nodes, l).len(),
        level_nodes(nodes, l).len() <= vstd::arithmetic::power2::pow2(l),
    decreases l,
{
    lemma_next_level_len(nodes, level_nodes(nodes, l));
    if l == 0 {
        vstd::arithmetic::power2::lemma2_to64();
    } else {
        lemma_level_size_doubles(nodes, (l - 1) as nat);
        vstd::arithmetic::power2::lemma_pow2_unfold(l);
    }
}

} // verus!
