//! The restructured control flow of a function: a tree of simple blocks,
//! loops and selectors.

use vstd::prelude::*;

use crate::assoc::lookup;

verus! {

/// How an edge of the control-flow graph is realised in the structured form:
/// by leaving a loop or continuing it, by falling through, or by choosing an
/// arm of an enclosing selector; the kinds with `IntoMulti` lead into a
/// selector.
#[verifier::external_type_specification]
pub struct ExBranchMode(relooper::BranchMode);

/// A node of the restructured control flow.
#[derive(Debug, PartialEq)]
pub enum ShapedBlock {
    /// One block of the function.
    Simple(SimpleBlock),
    /// A loop around a shape.
    Loop(LoopBlock),
    /// A selector between shapes.
    Multiple(MultipleBlock),
}

/// One block of the function, with what follows it.
#[derive(Debug, PartialEq)]
pub struct SimpleBlock {
    /// The id of the block.
    pub label: u32,
    /// What the block runs into: a shape that it reaches directly, or a
    /// selector between the blocks that it branches to.
    pub immediate: Option<Box<ShapedBlock>>,
    /// The kind of each edge of the block that leaves this structure, by the
    /// id of its destination. Where a destination has several entries, the
    /// first counts.
    pub branches: Vec<(u32, relooper::BranchMode)>,
    /// What runs after the block and its immediate shape.
    pub next: Option<Box<ShapedBlock>>,
}

/// A loop, with what follows it.
#[derive(Debug, PartialEq)]
pub struct LoopBlock {
    /// The id by which edges name the loop.
    pub loop_id: u16,
    /// The body of the loop.
    pub inner: Box<ShapedBlock>,
    /// What runs after the loop.
    pub next: Option<Box<ShapedBlock>>,
}

/// A selector: the shapes it chooses between.
#[derive(Debug, PartialEq)]
pub struct MultipleBlock {
    pub handled: Vec<HandledBlock>,
}

/// One arm of a selector.
#[derive(Debug, PartialEq)]
pub struct HandledBlock {
    /// The block ids that select this arm.
    pub labels: Vec<u32>,
    /// What the arm runs.
    pub inner: ShapedBlock,
    /// Whether control leaves the selector after this arm.
    pub break_after: bool,
}

/// The mathematical content of a [`ShapedBlock`].
pub ghost enum ShapeView {
    Simple(SimpleView),
    Loop(LoopView),
    Multiple(Seq<HandledView>),
}

/// The mathematical content of a [`SimpleBlock`].
pub ghost struct SimpleView {
    pub label: u32,
    pub immediate: Option<Box<ShapeView>>,
    pub branches: Map<u32, relooper::BranchMode>,
    pub next: Option<Box<ShapeView>>,
}

/// The mathematical content of a [`LoopBlock`].
pub ghost struct LoopView {
    pub loop_id: u16,
    pub inner: Box<ShapeView>,
    pub next: Option<Box<ShapeView>>,
}

/// The mathematical content of a [`HandledBlock`].
pub ghost struct HandledView {
    pub labels: Seq<u32>,
    pub inner: Box<ShapeView>,
    pub break_after: bool,
}

/// The map that a list of entries stands for: each key with the value of its
/// first entry.
pub open spec fn entry_map<V>(pairs: Seq<(u32, V)>) -> Map<u32, V> {
    Map::new(|key: u32| lookup(pairs, key) is Some, |key: u32| lookup(pairs, key)->Some_0)
}

/// The content of a shape.
pub open spec fn shape_view(shape: ShapedBlock) -> ShapeView
    decreases shape, 0nat,
{
    match shape {
        ShapedBlock::Simple(simple) => ShapeView::Simple(
            SimpleView {
                label: simple.label,
                immediate: match simple.immediate {
                    Some(immediate) => Some(Box::new(shape_view(*immediate))),
                    None => None,
                },
                branches: entry_map(simple.branches@),
                next: match simple.next {
                    Some(next) => Some(Box::new(shape_view(*next))),
                    None => None,
                },
            },
        ),
        ShapedBlock::Loop(l) => ShapeView::Loop(
            LoopView {
                loop_id: l.loop_id,
                inner: Box::new(shape_view(*l.inner)),
                next: match l.next {
                    Some(next) => Some(Box::new(shape_view(*next))),
                    None => None,
                },
            },
        ),
        ShapedBlock::Multiple(m) => ShapeView::Multiple(arm_views(m, m.handled.len() as nat)),
    }
}

/// The content of the shape that comes next, if one does.
pub open spec fn next_view(next: Option<Box<ShapedBlock>>) -> Option<Box<ShapeView>> {
    match next {
        Some(shape) => Some(Box::new(shape_view(*shape))),
        None => None,
    }
}

/// The content of the first `count` arms of a selector.
pub open spec fn arm_views(m: MultipleBlock, count: nat) -> Seq<HandledView>
    decreases m, count,
{
    if count == 0 || count > m.handled.len() {
        Seq::empty()
    } else {
        arm_views(m, (count - 1) as nat).push(arm_view(m.handled[count - 1]))
    }
}

/// The content of an arm of a selector.
pub open spec fn arm_view(arm: HandledBlock) -> HandledView
    decreases arm, 0nat,
{
    HandledView {
        labels: arm.labels@,
        inner: Box::new(shape_view(arm.inner)),
        break_after: arm.break_after,
    }
}

/// The first arms of a selector have their content at their places.
pub proof fn lemma_arm_views(m: MultipleBlock, count: nat)
    requires
        count <= m.handled.len(),
    ensures
        arm_views(m, count).len() == count,
        forall|i: int| 0 <= i < count ==> #[trigger] arm_views(m, count)[i] == arm_view(m.handled[i]),
    decreases count,
{
    if count > 0 {
        lemma_arm_views(m, (count - 1) as nat);
    }
}

/// Is something to run after this shape, within the same sequence?
pub open spec fn shape_has_next(shaped: ShapeView) -> bool {
    match shaped {
        ShapeView::Simple(s) => s.next is Some,
        ShapeView::Loop(l) => l.next is Some,
        ShapeView::Multiple(_) => false,
    }
}

} // verus!
