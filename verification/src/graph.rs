//! The control-flow graph of a function as it is handed to the
//! restructuring: what keeps a graph from being restructured, and the blocks
//! of it that can be reached.

use vstd::prelude::*;

use crate::error::TranslationError;
use crate::reach::{
    ascending, graph_view, has_label, lemma_live_well_formed, live_blocks_of, live_graph,
    self_contained, well_formed_graph,
};

verus! {

/// The label of the first block that does not come after its predecessor in
/// ascending order of the labels.
pub open spec fn first_unordered(graph: Seq<(u32, Seq<u32>)>) -> Option<u32>
    decreases graph.len(),
{
    if graph.len() < 2 {
        None
    } else {
        match first_unordered(graph.drop_last()) {
            Some(label) => Some(label),
            None => if graph[graph.len() - 2].0 < graph.last().0 {
                None
            } else {
                Some(graph.last().0)
            },
        }
    }
}

/// The successors of all blocks of a graph, block after block.
pub open spec fn graph_targets(graph: Seq<(u32, Seq<u32>)>) -> Seq<u32>
    decreases graph.len(),
{
    if graph.len() == 0 {
        Seq::empty()
    } else {
        graph_targets(graph.drop_last()) + graph.last().1
    }
}

/// The first label of a list that is not that of a block of the graph.
pub open spec fn first_missing(graph: Seq<(u32, Seq<u32>)>, labels: Seq<u32>) -> Option<u32>
    decreases labels.len(),
{
    if labels.len() == 0 {
        None
    } else {
        match first_missing(graph, labels.drop_last()) {
            Some(label) => Some(label),
            None => if has_label(graph, labels.last()) {
                None
            } else {
                Some(labels.last())
            },
        }
    }
}

/// What keeps a graph from being restructured: it has no block, its blocks
/// are not in strictly ascending order of their labels, a successor is not a
/// block of the graph, or the first label is not.
pub open spec fn graph_defect(graph: Seq<(u32, Seq<u32>)>, first: u32) -> Option<
    TranslationError,
> {
    if graph.len() == 0 {
        Some(TranslationError::EmptyFunction)
    } else {
        match first_unordered(graph) {
            Some(label) => Some(TranslationError::UnorderedBlock(label)),
            None => match first_missing(graph, graph_targets(graph).push(first)) {
                Some(label) => Some(TranslationError::UnknownBlock(label)),
                None => None,
            },
        }
    }
}

proof fn lemma_first_unordered_prefix(graph: Seq<(u32, Seq<u32>)>, n: int)
    requires
        0 <= n <= graph.len(),
        first_unordered(graph.take(n)) is Some,
    ensures
        first_unordered(graph) == first_unordered(graph.take(n)),
    decreases graph.len(),
{
    if n < graph.len() {
        assert(graph.drop_last().take(n) == graph.take(n));
        lemma_first_unordered_prefix(graph.drop_last(), n);
    } else {
        assert(graph.take(n) == graph);
    }
}

proof fn lemma_first_missing_prefix(graph: Seq<(u32, Seq<u32>)>, labels: Seq<u32>, n: int)
    requires
        0 <= n <= labels.len(),
        first_missing(graph, labels.take(n)) is Some,
    ensures
        first_missing(graph, labels) == first_missing(graph, labels.take(n)),
    decreases labels.len(),
{
    if n < labels.len() {
        assert(labels.drop_last().take(n) == labels.take(n));
        lemma_first_missing_prefix(graph, labels.drop_last(), n);
    } else {
        assert(labels.take(n) == labels);
    }
}

/// Is the label that of a block of the graph?
#[verifier::loop_isolation(false)]
fn contains_label(blocks: &Vec<(u32, Vec<u32>)>, label: u32) -> (r: bool)
    ensures
        r == has_label(graph_view(blocks@), label),
{
    let ghost graph = graph_view(blocks@);
    let mut i: usize = 0;
    while i < blocks.len()
        invariant
            i <= blocks.len(),
            forall|j: int| 0 <= j < i ==> (#[trigger] graph[j]).0 != label,
        decreases blocks.len() - i,
    {
        if blocks[i].0 == label {
            assert(graph[i as int].0 == label);
            return true;
        }
        i += 1;
    }
    false
}

/// The successors of all blocks of a graph, followed by its first label.
#[verifier::loop_isolation(false)]
fn collect_targets(blocks: &Vec<(u32, Vec<u32>)>, first: u32) -> (r: Vec<u32>)
    ensures
        r@ == graph_targets(graph_view(blocks@)).push(first),
{
    let ghost graph = graph_view(blocks@);
    let mut targets: Vec<u32> = Vec::new();
    let mut b: usize = 0;
    assert(graph.take(0) == Seq::<(u32, Seq<u32>)>::empty());
    while b < blocks.len()
        invariant
            b <= blocks.len(),
            targets@ == graph_targets(graph.take(b as int)),
        decreases blocks.len() - b,
    {
        let ghost before = targets@;
        let successors = &blocks[b].1;
        let mut k: usize = 0;
        while k < successors.len()
            invariant
                k <= successors.len(),
                targets@ == before + successors@.take(k as int),
            decreases successors.len() - k,
        {
            targets.push(successors[k]);
            assert(successors@.take(k + 1) == successors@.take(k as int).push(successors@[k as int]));
            k += 1;
        }
        assert(successors@.take(k as int) == successors@);
        assert(graph.take(b + 1).drop_last() == graph.take(b as int));
        assert(graph.take(b + 1).last().1 == successors@);
        b += 1;
    }
    assert(graph.take(b as int) == graph);
    targets.push(first);
    targets
}

/// What keeps a graph from being restructured, if anything does.
#[verifier::loop_isolation(false)]
fn check_graph(blocks: &Vec<(u32, Vec<u32>)>, first: u32) -> (r: Option<TranslationError>)
    ensures
        r == graph_defect(graph_view(blocks@), first),
{
    let ghost graph = graph_view(blocks@);
    if blocks.len() == 0 {
        return Some(TranslationError::EmptyFunction);
    }
    let mut i: usize = 1;
    assert(first_unordered(graph.take(1)) is None);
    while i < blocks.len()
        invariant
            1 <= i <= blocks.len(),
            first_unordered(graph.take(i as int)) is None,
        decreases blocks.len() - i,
    {
        assert(graph.take(i + 1).drop_last() == graph.take(i as int));
        assert(graph.take(i + 1)[i - 1] == graph[i - 1]);
        assert(graph.take(i + 1).last() == graph[i as int]);
        if !(blocks[i - 1].0 < blocks[i].0) {
            proof {
                lemma_first_unordered_prefix(graph, i + 1);
            }
            return Some(TranslationError::UnorderedBlock(blocks[i].0));
        }
        i += 1;
    }
    assert(graph.take(i as int) == graph);
    let targets = collect_targets(blocks, first);
    let mut k: usize = 0;
    assert(targets@.take(0) == Seq::<u32>::empty());
    while k < targets.len()
        invariant
            k <= targets.len(),
            first_missing(graph, targets@.take(k as int)) is None,
        decreases targets.len() - k,
    {
        assert(targets@.take(k + 1).drop_last() == targets@.take(k as int));
        if !contains_label(blocks, targets[k]) {
            proof {
                lemma_first_missing_prefix(graph, targets@, k + 1);
            }
            return Some(TranslationError::UnknownBlock(targets[k]));
        }
        k += 1;
    }
    assert(targets@.take(k as int) == targets@);
    None
}

/// Without an unordered block, the labels ascend from each block to the
/// next.
proof fn lemma_ordered(graph: Seq<(u32, Seq<u32>)>, i: int)
    requires
        first_unordered(graph) is None,
        0 < i < graph.len(),
    ensures
        graph[i - 1].0 < graph[i].0,
    decreases graph.len(),
{
    if i < graph.len() - 1 {
        assert(graph.drop_last()[i] == graph[i]);
        assert(graph.drop_last()[i - 1] == graph[i - 1]);
        lemma_ordered(graph.drop_last(), i);
    }
}

/// Labels that ascend from each block to the next ascend.
proof fn lemma_ascending(graph: Seq<(u32, Seq<u32>)>, i: int, j: int)
    requires
        first_unordered(graph) is None,
        0 <= i < j < graph.len(),
    ensures
        graph[i].0 < graph[j].0,
    decreases j - i,
{
    lemma_ordered(graph, j);
    if i < j - 1 {
        lemma_ascending(graph, i, j - 1);
    }
}

/// Without a missing label, every label of the list is a block.
proof fn lemma_none_missing(graph: Seq<(u32, Seq<u32>)>, labels: Seq<u32>, n: int)
    requires
        first_missing(graph, labels) is None,
        0 <= n < labels.len(),
    ensures
        has_label(graph, labels[n]),
    decreases labels.len(),
{
    if n < labels.len() - 1 {
        assert(labels.drop_last()[n] == labels[n]);
        lemma_none_missing(graph, labels.drop_last(), n);
    }
}

/// Every successor of a graph is among its targets.
proof fn lemma_target(graph: Seq<(u32, Seq<u32>)>, i: int, k: int)
    requires
        0 <= i < graph.len(),
        0 <= k < graph[i].1.len(),
    ensures
        exists|n: int|
            0 <= n < graph_targets(graph).len() && #[trigger] graph_targets(graph)[n]
                == graph[i].1[k],
    decreases graph.len(),
{
    let before = graph_targets(graph.drop_last());
    if i < graph.len() - 1 {
        assert(graph.drop_last()[i] == graph[i]);
        lemma_target(graph.drop_last(), i, k);
        let n = choose|n: int| 0 <= n < before.len() && #[trigger] before[n] == graph[i].1[k];
        assert(graph_targets(graph)[n] == graph[i].1[k]);
    } else {
        assert(graph_targets(graph)[before.len() + k] == graph[i].1[k]);
    }
}

/// A graph without a defect is in the form in which it can be restructured,
/// but for blocks that are not reached.
proof fn lemma_no_defect(graph: Seq<(u32, Seq<u32>)>, first: u32)
    requires
        graph_defect(graph, first) is None,
    ensures
        graph.len() > 0,
        ascending(graph),
        self_contained(graph),
        has_label(graph, first),
{
    let targets = graph_targets(graph).push(first);
    assert forall|i: int, j: int| 0 <= i < j < graph.len() implies (#[trigger] graph[i]).0 < (
    #[trigger] graph[j]).0 by {
        lemma_ascending(graph, i, j);
    }
    assert forall|i: int, k: int|
        0 <= i < graph.len() && 0 <= k < graph[i].1.len() implies has_label(
        graph,
        #[trigger] graph[i].1[k],
    ) by {
        lemma_target(graph, i, k);
        let n = choose|n: int|
            0 <= n < graph_targets(graph).len() && #[trigger] graph_targets(graph)[n]
                == graph[i].1[k];
        assert(targets[n] == graph[i].1[k]);
        lemma_none_missing(graph, targets, n);
    }
    assert(targets[targets.len() - 1] == first);
    lemma_none_missing(graph, targets, targets.len() - 1);
}

/// Prepares a control-flow graph, given as its blocks with their successors
/// and the label of its first block, for restructuring: the blocks that
/// cannot be reached from the first are left aside.
///
/// The blocks must come in strictly ascending order of their labels, and every
/// successor and the first label must be a block: the first defect of the
/// graph, see [`graph_defect`], is the error. The graph that is handed out
/// has a block, is in ascending order, names no block that it does not hold,
/// and every block of it can be reached from the first.
pub fn live_input(blocks: Vec<(u32, Vec<u32>)>, first: u32) -> (r: Result<
    Vec<(u32, Vec<u32>)>,
    TranslationError,
>)
    ensures
        match graph_defect(graph_view(blocks@), first) {
            Some(e) => r == Err::<Vec<(u32, Vec<u32>)>, TranslationError>(e),
            None => r is Ok && graph_view(r->Ok_0@) == live_graph(graph_view(blocks@), first)
                && well_formed_graph(graph_view(r->Ok_0@), first),
        },
{
    match check_graph(&blocks, first) {
        Some(e) => Err(e),
        None => {
            let live = live_blocks_of(&blocks, first);
            proof {
                lemma_no_defect(graph_view(blocks@), first);
                lemma_live_well_formed(graph_view(blocks@), first);
            }
            Ok(live)
        },
    }
}

} // verus!
