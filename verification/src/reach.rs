//! Which blocks of a control-flow graph can be reached from its first block.

use vstd::prelude::*;

verus! {

/// A graph as plain values: each block's label with the labels of its
/// successors.
pub open spec fn graph_view(blocks: Seq<(u32, Vec<u32>)>) -> Seq<(u32, Seq<u32>)> {
    blocks.map_values(|block: (u32, Vec<u32>)| (block.0, block.1@))
}

/// Is the label that of a block of the graph?
pub open spec fn has_label(graph: Seq<(u32, Seq<u32>)>, label: u32) -> bool {
    exists|i: int| 0 <= i < graph.len() && (#[trigger] graph[i]).0 == label
}

/// Is the successor at a position of a block the label `to`, where the block
/// has the label `from`?
pub open spec fn edge_at(graph: Seq<(u32, Seq<u32>)>, i: int, k: int, from: u32, to: u32) -> bool {
    &&& 0 <= i < graph.len()
    &&& 0 <= k < graph[i].1.len()
    &&& graph[i].0 == from
    &&& graph[i].1[k] == to
}

/// Does a block with the label `from` have the successor `to`?
pub open spec fn has_edge(graph: Seq<(u32, Seq<u32>)>, from: u32, to: u32) -> bool {
    exists|i: int, k: int| #[trigger] edge_at(graph, i, k, from, to)
}

/// Is the list of labels a path: does every label but the last have the next
/// as a successor?
pub open spec fn is_path(graph: Seq<(u32, Seq<u32>)>, path: Seq<u32>) -> bool {
    &&& path.len() > 0
    &&& forall|j: int|
        0 <= j < path.len() - 1 ==> has_edge(graph, #[trigger] path[j], path[j + 1])
}

/// Is the list of labels a path from the first block to a label?
pub open spec fn leads_to(graph: Seq<(u32, Seq<u32>)>, first: u32, path: Seq<u32>, label: u32) -> bool {
    is_path(graph, path) && path[0] == first && path.last() == label
}

/// Can a label be reached from the first block along the edges of the graph?
pub open spec fn reachable(graph: Seq<(u32, Seq<u32>)>, first: u32, label: u32) -> bool {
    exists|path: Seq<u32>| #[trigger] leads_to(graph, first, path, label)
}

/// The blocks among the first `count` of a graph that can be reached from
/// the first block, in their order.
pub open spec fn live_blocks(graph: Seq<(u32, Seq<u32>)>, first: u32, count: nat) -> Seq<
    (u32, Seq<u32>),
>
    decreases count,
{
    if count == 0 || count > graph.len() {
        Seq::empty()
    } else {
        let before = live_blocks(graph, first, (count - 1) as nat);
        if reachable(graph, first, graph[count - 1].0) {
            before.push(graph[count - 1])
        } else {
            before
        }
    }
}

/// The blocks of a graph that can be reached from the first block, in their
/// order.
pub open spec fn live_graph(graph: Seq<(u32, Seq<u32>)>, first: u32) -> Seq<(u32, Seq<u32>)> {
    live_blocks(graph, first, graph.len())
}

/// The first block is reached.
pub proof fn lemma_first_reachable(graph: Seq<(u32, Seq<u32>)>, first: u32)
    ensures
        reachable(graph, first, first),
{
    assert(leads_to(graph, first, seq![first], first));
}

/// What a reached block leads to is reached.
pub proof fn lemma_step_reachable(graph: Seq<(u32, Seq<u32>)>, first: u32, from: u32, to: u32)
    requires
        reachable(graph, first, from),
        has_edge(graph, from, to),
    ensures
        reachable(graph, first, to),
{
    let path = choose|path: Seq<u32>| #[trigger] leads_to(graph, first, path, from);
    let longer = path.push(to);
    assert forall|j: int| 0 <= j < longer.len() - 1 implies has_edge(
        graph,
        #[trigger] longer[j],
        longer[j + 1],
    ) by {
        if j < path.len() - 1 {
            assert(has_edge(graph, path[j], path[j + 1]));
        }
    }
    assert(leads_to(graph, first, longer, to));
}

/// How many of the marks are not set.
pub open spec fn unmarked(marks: Seq<bool>) -> nat
    decreases marks.len(),
{
    if marks.len() == 0 {
        0
    } else {
        unmarked(marks.drop_last()) + if marks.last() {
            0nat
        } else {
            1nat
        }
    }
}

/// Setting a mark that was not set leaves one mark less that is not set.
proof fn lemma_unmarked_update(marks: Seq<bool>, i: int)
    requires
        0 <= i < marks.len(),
        !marks[i],
    ensures
        unmarked(marks.update(i, true)) + 1 == unmarked(marks),
    decreases marks.len(),
{
    if i < marks.len() - 1 {
        assert(marks.update(i, true).drop_last() == marks.drop_last().update(i, true));
        lemma_unmarked_update(marks.drop_last(), i);
    } else {
        assert(marks.update(i, true).drop_last() == marks.drop_last());
    }
}

/// Are the marks closed under the edges: is every block marked that a
/// successor of a marked block names?
pub open spec fn closed(graph: Seq<(u32, Seq<u32>)>, marks: Seq<bool>) -> bool {
    forall|i: int, k: int, j: int|
        0 <= i < graph.len() && 0 <= k < graph[i].1.len() && 0 <= j < graph.len() && marks[i]
            && (#[trigger] graph[j]).0 == #[trigger] graph[i].1[k] ==> marks[j]
}

/// Marks that are closed under the edges and hold for the first block hold
/// for every block that a path from the first block leads to.
proof fn lemma_closed_reaches(
    graph: Seq<(u32, Seq<u32>)>,
    marks: Seq<bool>,
    first: u32,
    path: Seq<u32>,
    j: int,
)
    requires
        marks.len() == graph.len(),
        closed(graph, marks),
        forall|i: int| 0 <= i < graph.len() && (#[trigger] graph[i]).0 == first ==> marks[i],
        is_path(graph, path),
        path[0] == first,
        0 <= j < graph.len(),
        graph[j].0 == path.last(),
    ensures
        marks[j],
    decreases path.len(),
{
    if path.len() > 1 {
        let shorter = path.drop_last();
        assert forall|n: int| 0 <= n < shorter.len() - 1 implies has_edge(
            graph,
            #[trigger] shorter[n],
            shorter[n + 1],
        ) by {
            assert(has_edge(graph, path[n], path[n + 1]));
        }
        assert(has_edge(graph, path[path.len() - 2], path[path.len() - 2 + 1]));
        let (i, k) = choose|i: int, k: int| #[trigger]
            edge_at(graph, i, k, path[path.len() - 2], path.last());
        assert(shorter.last() == graph[i].0);
        lemma_closed_reaches(graph, marks, first, shorter, i);
        assert(graph[j].0 == graph[i].1[k]);
    }
}

/// Marks every block with the label.
#[verifier::loop_isolation(false)]
fn mark_label(blocks: &Vec<(u32, Vec<u32>)>, marks: &mut Vec<bool>, label: u32) -> (changed: bool)
    requires
        old(marks)@.len() == blocks@.len(),
    ensures
        final(marks)@.len() == blocks@.len(),
        forall|j: int|
            0 <= j < blocks@.len() ==> final(marks)@[j] == (old(marks)@[j] || blocks@[j].0
                == label),
        !changed ==> final(marks)@ == old(marks)@,
        changed ==> unmarked(final(marks)@) < unmarked(old(marks)@),
        unmarked(final(marks)@) <= unmarked(old(marks)@),
{
    let mut changed = false;
    let mut j: usize = 0;
    while j < blocks.len()
        invariant
            j <= blocks.len(),
            marks@.len() == blocks@.len(),
            forall|n: int|
                0 <= n < j ==> marks@[n] == (old(marks)@[n] || blocks@[n].0 == label),
            forall|n: int| j <= n < blocks@.len() ==> marks@[n] == old(marks)@[n],
            !changed ==> marks@ == old(marks)@,
            changed ==> unmarked(marks@) < unmarked(old(marks)@),
            unmarked(marks@) <= unmarked(old(marks)@),
        decreases blocks.len() - j,
    {
        if blocks[j].0 == label && !marks[j] {
            proof {
                lemma_unmarked_update(marks@, j as int);
            }
            marks.set(j, true);
            changed = true;
        }
        j += 1;
    }
    changed
}

/// Which blocks of a graph can be reached from the first block.
#[verifier::loop_isolation(false)]
pub fn mark_reachable(blocks: &Vec<(u32, Vec<u32>)>, first: u32) -> (marks: Vec<bool>)
    ensures
        marks@.len() == blocks@.len(),
        forall|i: int|
            0 <= i < blocks@.len() ==> marks@[i] == reachable(
                graph_view(blocks@),
                first,
                (#[trigger] blocks@[i]).0,
            ),
{
    let ghost graph = graph_view(blocks@);
    let mut marks: Vec<bool> = Vec::new();
    let mut n: usize = 0;
    while n < blocks.len()
        invariant
            n <= blocks.len(),
            marks@.len() == n,
            forall|i: int| 0 <= i < n ==> !marks@[i],
        decreases blocks.len() - n,
    {
        marks.push(false);
        n += 1;
    }
    mark_label(blocks, &mut marks, first);
    proof {
        lemma_first_reachable(graph, first);
    }
    let mut changed = true;
    while changed
        invariant
            marks@.len() == blocks@.len(),
            forall|i: int| 0 <= i < graph.len() && (#[trigger] graph[i]).0 == first ==> marks@[i],
            forall|i: int| 0 <= i < graph.len() && marks@[i] ==> reachable(
                graph,
                first,
                (#[trigger] graph[i]).0,
            ),
            !changed ==> closed(graph, marks@),
        decreases unmarked(marks@) + if changed { 1nat } else { 0nat },
    {
        let ghost start = marks@;
        changed = false;
        let mut i: usize = 0;
        while i < blocks.len()
            invariant
                i <= blocks.len(),
                marks@.len() == blocks@.len(),
                forall|j: int| 0 <= j < graph.len() && start[j] ==> marks@[j],
                forall|j: int| 0 <= j < graph.len() && marks@[j] ==> reachable(
                    graph,
                    first,
                    (#[trigger] graph[j]).0,
                ),
                !changed ==> marks@ == start,
                changed ==> unmarked(marks@) < unmarked(start),
                !changed ==> forall|a: int, k: int, j: int|
                    0 <= a < i && 0 <= k < graph[a].1.len() && 0 <= j < graph.len() && marks@[a]
                        && (#[trigger] graph[j]).0 == #[trigger] graph[a].1[k] ==> marks@[j],
            decreases blocks.len() - i,
        {
            let ghost earlier = marks@;
            let ghost changed_earlier = changed;
            if marks[i] {
                let successors = &blocks[i].1;
                let mut k: usize = 0;
                while k < successors.len()
                    invariant
                        k <= successors.len(),
                        marks@.len() == blocks@.len(),
                        marks@[i as int],
                        changed_earlier ==> changed,
                        forall|j: int| 0 <= j < graph.len() && start[j] ==> marks@[j],
                        forall|j: int| 0 <= j < graph.len() && marks@[j] ==> reachable(
                            graph,
                            first,
                            (#[trigger] graph[j]).0,
                        ),
                        !changed ==> marks@ == start,
                        changed ==> unmarked(marks@) < unmarked(start),
                        !changed ==> forall|n: int, j: int|
                            0 <= n < k && 0 <= j < graph.len() && (#[trigger] graph[j]).0
                                == #[trigger] successors@[n] ==> marks@[j],
                    decreases successors.len() - k,
                {
                    let ghost before = marks@;
                    proof {
                        assert(edge_at(graph, i as int, k as int, graph[i as int].0, successors@[k as int]));
                        lemma_step_reachable(graph, first, graph[i as int].0, successors@[k as int]);
                    }
                    if mark_label(blocks, &mut marks, successors[k]) {
                        changed = true;
                    }
                    assert forall|j: int| 0 <= j < graph.len() && marks@[j] implies reachable(
                        graph,
                        first,
                        (#[trigger] graph[j]).0,
                    ) by {
                        if !before[j] {
                            assert(blocks@[j].0 == successors@[k as int]);
                        }
                    }
                    k += 1;
                }
                assert(graph[i as int].1 == successors@);
                proof {
                    if !changed {
                        assert forall|k: int, j: int|
                            0 <= k < graph[i as int].1.len() && 0 <= j < graph.len()
                                && (#[trigger] graph[j]).0
                                == #[trigger] graph[i as int].1[k] implies marks@[j] by {
                            assert(graph[j].0 == successors@[k]);
                        }
                    }
                }
            }
            assert(!changed ==> forall|k: int, j: int|
                0 <= k < graph[i as int].1.len() && 0 <= j < graph.len() && marks@[i as int]
                    && (#[trigger] graph[j]).0 == #[trigger] graph[i as int].1[k] ==> marks@[j]);
            proof {
                if !changed {
                    assert(!changed_earlier);
                    assert(marks@ == earlier);
                    assert forall|a: int, k: int, j: int|
                        0 <= a < i + 1 && 0 <= k < graph[a].1.len() && 0 <= j < graph.len()
                            && marks@[a] && (#[trigger] graph[j]).0
                            == #[trigger] graph[a].1[k] implies marks@[j] by {
                        if a < i {
                            assert(earlier[a]);
                        }
                    }
                }
            }
            i += 1;
        }
    }
    proof {
        assert forall|i: int| 0 <= i < blocks@.len() implies marks@[i] == reachable(
            graph,
            first,
            (#[trigger] blocks@[i]).0,
        ) by {
            assert(blocks@[i].0 == graph[i].0);
            if reachable(graph, first, graph[i].0) {
                let path = choose|path: Seq<u32>| #[trigger]
                    leads_to(graph, first, path, graph[i].0);
                lemma_closed_reaches(graph, marks@, first, path, i);
            }
        }
    }
    marks
}


/// Do the blocks of a graph come in strictly ascending order of their
/// labels?
pub open spec fn ascending(graph: Seq<(u32, Seq<u32>)>) -> bool {
    forall|i: int, j: int|
        0 <= i < j < graph.len() ==> (#[trigger] graph[i]).0 < (#[trigger] graph[j]).0
}

/// Is every successor of a graph the label of a block of it?
pub open spec fn self_contained(graph: Seq<(u32, Seq<u32>)>) -> bool {
    forall|i: int, k: int|
        0 <= i < graph.len() && 0 <= k < graph[i].1.len() ==> has_label(
            graph,
            #[trigger] graph[i].1[k],
        )
}

/// Is a graph in the form in which it can be restructured from its first
/// block? It has a block, its blocks come in strictly ascending order of
/// their labels, every successor and the first label is a block of it, and
/// every block can be reached from the first.
pub open spec fn well_formed_graph(graph: Seq<(u32, Seq<u32>)>, first: u32) -> bool {
    &&& graph.len() > 0
    &&& ascending(graph)
    &&& self_contained(graph)
    &&& has_label(graph, first)
    &&& forall|i: int| 0 <= i < graph.len() ==> reachable(graph, first, (#[trigger] graph[i]).0)
}

/// Is a block the one at a position among the first blocks of a graph, and
/// reached?
pub open spec fn live_source(
    graph: Seq<(u32, Seq<u32>)>,
    first: u32,
    count: nat,
    i: int,
    block: (u32, Seq<u32>),
) -> bool {
    0 <= i < count && i < graph.len() && graph[i] == block && reachable(graph, first, block.0)
}

/// Is a block one of the first blocks of a graph, and reached?
pub open spec fn has_source(
    graph: Seq<(u32, Seq<u32>)>,
    first: u32,
    count: nat,
    block: (u32, Seq<u32>),
) -> bool {
    exists|i: int| #[trigger] live_source(graph, first, count, i, block)
}

/// Every live block among the first blocks is one of them that is reached,
/// and the live blocks keep the order of the blocks.
pub proof fn lemma_live_sound(graph: Seq<(u32, Seq<u32>)>, first: u32, count: nat)
    requires
        count <= graph.len(),
    ensures
        forall|a: int|
            0 <= a < live_blocks(graph, first, count).len() ==> has_source(
                graph,
                first,
                count,
                #[trigger] live_blocks(graph, first, count)[a],
            ),
        ascending(graph) ==> ascending(live_blocks(graph, first, count)),
    decreases count,
{
    let live = live_blocks(graph, first, count);
    if count > 0 {
        lemma_live_sound(graph, first, (count - 1) as nat);
        let before = live_blocks(graph, first, (count - 1) as nat);
        assert forall|a: int| 0 <= a < live.len() implies has_source(
            graph,
            first,
            count,
            #[trigger] live[a],
        ) by {
            if a < before.len() {
                assert(has_source(graph, first, (count - 1) as nat, before[a]));
                let i = choose|i: int| #[trigger]
                    live_source(graph, first, (count - 1) as nat, i, before[a]);
                assert(live_source(graph, first, count, i, live[a]));
            } else {
                assert(live_source(graph, first, count, count - 1, live[a]));
            }
        }
        if ascending(graph) {
            assert forall|a: int, b: int| 0 <= a < b < live.len() implies (#[trigger] live[a]).0
                < (#[trigger] live[b]).0 by {
                if b < before.len() {
                    assert(before[a].0 < before[b].0);
                } else {
                    assert(has_source(graph, first, (count - 1) as nat, before[a]));
                    let i = choose|i: int| #[trigger]
                        live_source(graph, first, (count - 1) as nat, i, before[a]);
                    assert(graph[i].0 < graph[count - 1].0);
                }
            }
        }
    }
}

/// Every block among the first blocks that is reached is a live block.
pub proof fn lemma_live_complete(graph: Seq<(u32, Seq<u32>)>, first: u32, count: nat, i: int)
    requires
        count <= graph.len(),
        0 <= i < count,
        reachable(graph, first, graph[i].0),
    ensures
        exists|a: int|
            0 <= a < live_blocks(graph, first, count).len() && #[trigger] live_blocks(
                graph,
                first,
                count,
            )[a] == graph[i],
    decreases count,
{
    let live = live_blocks(graph, first, count);
    if i < count - 1 {
        lemma_live_complete(graph, first, (count - 1) as nat, i);
        let before = live_blocks(graph, first, (count - 1) as nat);
        let a = choose|a: int| 0 <= a < before.len() && #[trigger] before[a] == graph[i];
        assert(live[a] == graph[i]);
    } else {
        assert(live[live.len() - 1] == graph[i]);
    }
}

/// An edge from a block that is reached is an edge of the live graph.
pub proof fn lemma_live_edge(graph: Seq<(u32, Seq<u32>)>, first: u32, from: u32, to: u32)
    requires
        reachable(graph, first, from),
        has_edge(graph, from, to),
    ensures
        has_edge(live_graph(graph, first), from, to),
{
    let (i, k) = choose|i: int, k: int| #[trigger] edge_at(graph, i, k, from, to);
    lemma_live_complete(graph, first, graph.len(), i);
    let live = live_graph(graph, first);
    let a = choose|a: int| 0 <= a < live.len() && #[trigger] live[a] == graph[i];
    assert(edge_at(live, a, k, from, to));
}

/// A path from the first block is a path of the live graph.
pub proof fn lemma_live_path(graph: Seq<(u32, Seq<u32>)>, first: u32, path: Seq<u32>)
    requires
        is_path(graph, path),
        path[0] == first,
    ensures
        is_path(live_graph(graph, first), path),
        reachable(graph, first, path.last()),
    decreases path.len(),
{
    if path.len() == 1 {
        assert(path == seq![first]);
        lemma_first_reachable(graph, first);
    } else {
        let shorter = path.drop_last();
        assert forall|n: int| 0 <= n < shorter.len() - 1 implies has_edge(
            graph,
            #[trigger] shorter[n],
            shorter[n + 1],
        ) by {
            assert(has_edge(graph, path[n], path[n + 1]));
        }
        lemma_live_path(graph, first, shorter);
        let from = path[path.len() - 2];
        assert(has_edge(graph, path[path.len() - 2], path[path.len() - 2 + 1]));
        assert(shorter.last() == from);
        lemma_live_edge(graph, first, from, path.last());
        lemma_step_reachable(graph, first, from, path.last());
        let live = live_graph(graph, first);
        assert forall|n: int| 0 <= n < path.len() - 1 implies has_edge(
            live,
            #[trigger] path[n],
            path[n + 1],
        ) by {
            if n < shorter.len() - 1 {
                assert(has_edge(live, shorter[n], shorter[n + 1]));
            }
        }
    }
}

/// The live graph of a graph is in the form in which it can be
/// restructured, if the graph is but for blocks that are not reached.
pub proof fn lemma_live_well_formed(graph: Seq<(u32, Seq<u32>)>, first: u32)
    requires
        ascending(graph),
        self_contained(graph),
        has_label(graph, first),
    ensures
        well_formed_graph(live_graph(graph, first), first),
{
    let live = live_graph(graph, first);
    lemma_live_sound(graph, first, graph.len());
    lemma_first_reachable(graph, first);
    let f = choose|i: int| 0 <= i < graph.len() && (#[trigger] graph[i]).0 == first;
    lemma_live_complete(graph, first, graph.len(), f);
    let at = choose|a: int| 0 <= a < live.len() && #[trigger] live[a] == graph[f];
    assert(live[at].0 == first);
    assert forall|a: int, k: int| 0 <= a < live.len() && 0 <= k < live[a].1.len() implies has_label(
        live,
        #[trigger] live[a].1[k],
    ) by {
        assert(has_source(graph, first, graph.len(), live[a]));
        let i = choose|i: int| #[trigger] live_source(graph, first, graph.len(), i, live[a]);
        let to = graph[i].1[k];
        assert(has_label(graph, to));
        let j = choose|j: int| 0 <= j < graph.len() && (#[trigger] graph[j]).0 == to;
        assert(edge_at(graph, i, k, graph[i].0, to));
        lemma_step_reachable(graph, first, graph[i].0, to);
        lemma_live_complete(graph, first, graph.len(), j);
        let b = choose|b: int| 0 <= b < live.len() && #[trigger] live[b] == graph[j];
        assert(live[b].0 == to);
    }
    assert forall|a: int| 0 <= a < live.len() implies reachable(
        live,
        first,
        (#[trigger] live[a]).0,
    ) by {
        assert(has_source(graph, first, graph.len(), live[a]));
        let i = choose|i: int| #[trigger] live_source(graph, first, graph.len(), i, live[a]);
        let path = choose|path: Seq<u32>| #[trigger] leads_to(graph, first, path, graph[i].0);
        lemma_live_path(graph, first, path);
        assert(leads_to(live, first, path, live[a].0));
    }
}

/// A copy of a list of labels.
#[verifier::loop_isolation(false)]
fn copy_labels(labels: &Vec<u32>) -> (r: Vec<u32>)
    ensures
        r@ == labels@,
{
    let mut copy: Vec<u32> = Vec::new();
    let mut i: usize = 0;
    while i < labels.len()
        invariant
            i <= labels.len(),
            copy@ == labels@.take(i as int),
        decreases labels.len() - i,
    {
        copy.push(labels[i]);
        assert(labels@.take(i + 1) == labels@.take(i as int).push(labels@[i as int]));
        i += 1;
    }
    assert(labels@.take(i as int) == labels@);
    copy
}

/// The blocks of a graph that can be reached from the first block, in their
/// order.
#[verifier::loop_isolation(false)]
pub fn live_blocks_of(blocks: &Vec<(u32, Vec<u32>)>, first: u32) -> (live: Vec<(u32, Vec<u32>)>)
    ensures
        graph_view(live@) == live_graph(graph_view(blocks@), first),
{
    let ghost graph = graph_view(blocks@);
    let marks = mark_reachable(blocks, first);
    let mut live: Vec<(u32, Vec<u32>)> = Vec::new();
    let mut i: usize = 0;
    assert(graph_view(live@) =~= live_blocks(graph, first, 0));
    while i < blocks.len()
        invariant
            i <= blocks.len(),
            graph_view(live@) == live_blocks(graph, first, i as nat),
        decreases blocks.len() - i,
    {
        let ghost before = graph_view(live@);
        if marks[i] {
            let successors = copy_labels(&blocks[i].1);
            live.push((blocks[i].0, successors));
            assert(graph_view(live@) =~= before.push(graph[i as int]));
        }
        assert(blocks@[i as int].0 == graph[i as int].0);
        i += 1;
    }
    live
}

} // verus!
