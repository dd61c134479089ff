//! The way from a translated body, which is a flat list of instructions,
//! into a function of the module: the list is parsed into its nested
//! sequences, and these are built up in the module.

use vstd::prelude::*;

use crate::error::TranslationError;
use crate::target::{Instr, InstrSeqId, ValType};
use crate::walrus_api::{
    builder_view, new_seq, push_binop, push_block, push_br, push_br_if, push_i32_const,
    push_i64_const, push_if_else, push_local_get, push_local_set, push_loop, push_return,
    push_unreachable, with_op, BuilderView, FunctionView, LocalRef, ModuleView, Op, SeqRef,
};

verus! {

/// An instruction of a body together with the sequences nested in it.
#[derive(Debug, PartialEq, Eq)]
pub enum Node {
    /// An instruction that nests nothing.
    Plain(Instr),
    /// A block with its label and its body.
    Block(InstrSeqId, Vec<Node>),
    /// A loop with its label and its body.
    Loop(InstrSeqId, Vec<Node>),
    /// An `if` with its two arms.
    IfElse(Vec<Node>, Vec<Node>),
}

/// The flat list of the instructions of a node.
pub open spec fn flat_node(node: Node) -> Seq<Instr>
    decreases node, 0nat,
{
    match node {
        Node::Plain(instr) => seq![instr],
        Node::Block(label, body) => seq![Instr::Block(label)] + flat(body, body.len() as nat).push(
            Instr::End,
        ),
        Node::Loop(label, body) => seq![Instr::Loop(label)] + flat(body, body.len() as nat).push(
            Instr::End,
        ),
        Node::IfElse(consequent, alternative) => seq![Instr::If] + flat(
            consequent,
            consequent.len() as nat,
        ).push(Instr::Else) + flat(alternative, alternative.len() as nat).push(Instr::End),
    }
}

/// The flat list of the instructions of the first `count` nodes of a list.
pub open spec fn flat(nodes: Vec<Node>, count: nat) -> Seq<Instr>
    decreases nodes, count,
{
    if count == 0 || count > nodes.len() {
        Seq::empty()
    } else {
        flat(nodes, (count - 1) as nat) + flat_node(nodes[count - 1])
    }
}

/// The flat list of the instructions of a list of nodes.
pub open spec fn flat_all(nodes: Vec<Node>) -> Seq<Instr> {
    flat(nodes, nodes.len() as nat)
}

/// The kind of a sequence that is open while a body is read.
#[derive(Clone, Copy, Debug, PartialEq, Eq, Structural)]
pub enum FrameKind {
    /// The body itself.
    Body,
    /// A block with its label.
    Block(InstrSeqId),
    /// A loop with its label.
    Loop(InstrSeqId),
    /// The first arm of an `if`.
    Then,
    /// The second arm of an `if`.
    Otherwise,
}

/// The labels of the blocks and loops among some open sequences.
pub open spec fn frame_labels(open: Seq<FrameKind>) -> Set<InstrSeqId> {
    Set::new(
        |label: InstrSeqId|
            exists|k: int|
                0 <= k < open.len() && (#[trigger] open[k] == FrameKind::Block(label) || open[k]
                    == FrameKind::Loop(label)),
    )
}

/// The sequences that are open after an instruction, if they were `open`
/// before it, the innermost last; or what is wrong with the instruction,
/// which stands at position `at` of a body with `locals` locals: it closes or
/// separates what was not opened, it closes an `if` that has no `else`, it
/// branches to a label that is not that of an open block or loop, or it
/// names a local that the body does not have.
pub open spec fn step_frames(open: Seq<FrameKind>, instr: Instr, at: usize, locals: nat) -> Result<
    Seq<FrameKind>,
    TranslationError,
> {
    match instr {
        Instr::Block(label) => Ok(open.push(FrameKind::Block(label))),
        Instr::Loop(label) => Ok(open.push(FrameKind::Loop(label))),
        Instr::If => Ok(open.push(FrameKind::Then)),
        Instr::Else => if open.len() > 1 && open.last() == FrameKind::Then {
            Ok(open.drop_last().push(FrameKind::Otherwise))
        } else {
            Err(TranslationError::UnopenedSequence(at))
        },
        Instr::End => if open.len() <= 1 {
            Err(TranslationError::UnopenedSequence(at))
        } else if open.last() == FrameKind::Then {
            Err(TranslationError::MissingElse(at))
        } else {
            Ok(open.drop_last())
        },
        _ => match instr_defect(instr, frame_labels(open), locals) {
            Some(e) => Err(e),
            None => Ok(open),
        },
    }
}

/// The sequences that are open after the instructions of a list, the
/// innermost last, or what is wrong with the first instruction with which
/// something is wrong, see [`step_frames`].
pub open spec fn open_frames(stream: Seq<Instr>, locals: nat) -> Result<
    Seq<FrameKind>,
    TranslationError,
>
    decreases stream.len(),
{
    if stream.len() == 0 {
        Ok(seq![FrameKind::Body])
    } else {
        match open_frames(stream.drop_last(), locals) {
            Err(e) => Err(e),
            Ok(open) => step_frames(open, stream.last(), (stream.len() - 1) as usize, locals),
        }
    }
}

/// What keeps a list of instructions from being the body of a function with
/// `locals` locals: the first instruction with which something is wrong, see
/// [`step_frames`], or sequences that are open at the end.
pub open spec fn body_defect(stream: Seq<Instr>, locals: nat) -> Option<TranslationError> {
    match open_frames(stream, locals) {
        Err(e) => Some(e),
        Ok(open) => if open.len() == 1 {
            None
        } else {
            Some(TranslationError::UnclosedSequence((open.len() - 1) as usize))
        },
    }
}

/// The instruction of `walrus` for an instruction that nests nothing, where
/// `env` gives the sequence of each label that encloses the instruction and
/// `refs` the local of the module for each local of the body. There is none
/// for a branch to a label that does not enclose it, for a local that the
/// body does not have, and for an instruction that opens, closes or
/// separates sequences.
pub open spec fn plain_op(instr: Instr, env: Map<InstrSeqId, SeqRef>, refs: Seq<LocalRef>) -> Option<
    Op,
> {
    match instr {
        Instr::LocalGet(local) => if local < refs.len() {
            Some(Op::LocalGet(refs[local as int]))
        } else {
            None
        },
        Instr::LocalSet(local) => if local < refs.len() {
            Some(Op::LocalSet(refs[local as int]))
        } else {
            None
        },
        Instr::I32Const(value) => Some(Op::I32Const(value)),
        Instr::I64Const(value) => Some(Op::I64Const(value)),
        Instr::Binop(op) => Some(Op::Binop(op)),
        Instr::Br(label) => if env.contains_key(label) {
            Some(Op::Br(env[label]))
        } else {
            None
        },
        Instr::BrIf(label) => if env.contains_key(label) {
            Some(Op::BrIf(env[label]))
        } else {
            None
        },
        Instr::Return => Some(Op::Return),
        Instr::Unreachable => Some(Op::Unreachable),
        _ => None,
    }
}

/// Does an instruction of `walrus` stand for a node? An instruction that
/// nests nothing stands for itself, see [`plain_op`]. A block or a loop
/// stands for one whose sequence holds the body, where its label names that
/// sequence; an `if` for one whose two sequences hold the arms. The
/// sequences of the nodes are none of `avoid`.
pub open spec fn stands_for(
    seqs: Map<SeqRef, Seq<Op>>,
    op: Op,
    node: Node,
    env: Map<InstrSeqId, SeqRef>,
    refs: Seq<LocalRef>,
    avoid: Set<SeqRef>,
) -> bool
    decreases node, 0nat,
{
    match node {
        Node::Plain(instr) => plain_op(instr, env, refs) == Some(op),
        Node::Block(label, body) => op is Block && !avoid.contains(op->Block_0) && holds(
            seqs,
            op->Block_0,
            body,
            body.len() as nat,
            env.insert(label, op->Block_0),
            refs,
            avoid,
        ),
        Node::Loop(label, body) => op is Loop && !avoid.contains(op->Loop_0) && holds(
            seqs,
            op->Loop_0,
            body,
            body.len() as nat,
            env.insert(label, op->Loop_0),
            refs,
            avoid,
        ),
        Node::IfElse(consequent, alternative) => op is IfElse && !avoid.contains(op->IfElse_0)
            && !avoid.contains(op->IfElse_1) && holds(
            seqs,
            op->IfElse_0,
            consequent,
            consequent.len() as nat,
            env,
            refs,
            avoid,
        ) && holds(seqs, op->IfElse_1, alternative, alternative.len() as nat, env, refs, avoid),
    }
}

/// Does a sequence hold the first `count` nodes of a list, and nothing else?
pub open spec fn holds(
    seqs: Map<SeqRef, Seq<Op>>,
    seq: SeqRef,
    nodes: Vec<Node>,
    count: nat,
    env: Map<InstrSeqId, SeqRef>,
    refs: Seq<LocalRef>,
    avoid: Set<SeqRef>,
) -> bool
    decreases nodes, 1nat,
{
    &&& count <= nodes.len()
    &&& seqs.contains_key(seq)
    &&& seqs[seq].len() == count
    &&& forall|i: int|
        0 <= i < count ==> stands_for(seqs, #[trigger] seqs[seq][i], nodes[i], env, refs, avoid)
}

/// What keeps an instruction that nests nothing from being built: it names
/// a local that the body does not have, it branches to a label that does not
/// enclose it, or it is one that opens, closes or separates sequences.
pub open spec fn instr_defect(instr: Instr, bound: Set<InstrSeqId>, locals: nat) -> Option<
    TranslationError,
> {
    match instr {
        Instr::LocalGet(local) => if local < locals {
            None
        } else {
            Some(TranslationError::UnknownLocal(local))
        },
        Instr::LocalSet(local) => if local < locals {
            None
        } else {
            Some(TranslationError::UnknownLocal(local))
        },
        Instr::Br(label) => if bound.contains(label) {
            None
        } else {
            Some(TranslationError::UnboundLabel(label))
        },
        Instr::BrIf(label) => if bound.contains(label) {
            None
        } else {
            Some(TranslationError::UnboundLabel(label))
        },
        Instr::I32Const(_) => None,
        Instr::I64Const(_) => None,
        Instr::Binop(_) => None,
        Instr::Return => None,
        Instr::Unreachable => None,
        _ => Some(TranslationError::MisplacedMarker),
    }
}

/// What keeps a node from being built, where the labels of `bound` enclose
/// it and the body has `locals` locals: the first defect of an instruction in
/// it, see [`instr_defect`].
pub open spec fn node_defect(node: Node, bound: Set<InstrSeqId>, locals: nat) -> Option<
    TranslationError,
>
    decreases node, 0nat,
{
    match node {
        Node::Plain(instr) => instr_defect(instr, bound, locals),
        Node::Block(label, body) => tree_defect(
            body,
            body.len() as nat,
            bound.insert(label),
            locals,
        ),
        Node::Loop(label, body) => tree_defect(body, body.len() as nat, bound.insert(label), locals),
        Node::IfElse(consequent, alternative) => match tree_defect(
            consequent,
            consequent.len() as nat,
            bound,
            locals,
        ) {
            Some(e) => Some(e),
            None => tree_defect(alternative, alternative.len() as nat, bound, locals),
        },
    }
}

/// What keeps the first `count` nodes of a list from being built: the
/// defect of the first node that has one.
pub open spec fn tree_defect(
    nodes: Vec<Node>,
    count: nat,
    bound: Set<InstrSeqId>,
    locals: nat,
) -> Option<TranslationError>
    decreases nodes, count,
{
    if count == 0 || count > nodes.len() {
        None
    } else {
        match tree_defect(nodes, (count - 1) as nat, bound, locals) {
            Some(e) => Some(e),
            None => node_defect(nodes[count - 1], bound, locals),
        }
    }
}

/// A sequence that is open while a body is read, with what was read of it.
struct Frame {
    kind: FrameKind,
    /// The nodes of the sequence so far.
    nodes: Vec<Node>,
    /// The first arm, while the second arm of an `if` is read.
    consequent: Vec<Node>,
}

/// The instructions that were read of an open sequence.
spec fn frame_flat(frame: Frame) -> Seq<Instr> {
    match frame.kind {
        FrameKind::Body => flat_all(frame.nodes),
        FrameKind::Block(label) => seq![Instr::Block(label)] + flat_all(frame.nodes),
        FrameKind::Loop(label) => seq![Instr::Loop(label)] + flat_all(frame.nodes),
        FrameKind::Then => seq![Instr::If] + flat_all(frame.nodes),
        FrameKind::Otherwise => seq![Instr::If] + flat_all(frame.consequent).push(Instr::Else)
            + flat_all(frame.nodes),
    }
}

/// The instructions that were read of the open sequences, the outermost
/// first.
spec fn stack_flat(frames: Seq<Frame>) -> Seq<Instr>
    decreases frames.len(),
{
    if frames.len() == 0 {
        Seq::empty()
    } else {
        stack_flat(frames.drop_last()) + frame_flat(frames.last())
    }
}

/// The kinds of the open sequences.
spec fn stack_kinds(frames: Seq<Frame>) -> Seq<FrameKind> {
    frames.map_values(|frame: Frame| frame.kind)
}

/// Is what was read of an open sequence without a defect, where the labels
/// of `bound` enclose it?
spec fn frame_clean(frame: Frame, bound: Set<InstrSeqId>, locals: nat) -> bool {
    &&& tree_defect(frame.nodes, frame.nodes.len() as nat, bound, locals) is None
    &&& frame.kind == FrameKind::Otherwise ==> tree_defect(
        frame.consequent,
        frame.consequent.len() as nat,
        bound,
        locals,
    ) is None
}

/// Is what was read of the open sequences without a defect?
spec fn stack_clean(frames: Seq<Frame>, locals: nat) -> bool {
    forall|k: int|
        0 <= k < frames.len() ==> frame_clean(
            #[trigger] frames[k],
            frame_labels(stack_kinds(frames).take(k + 1)),
            locals,
        )
}

/// Lists that agree in their first nodes agree in the flat form of these.
proof fn lemma_flat_agree(a: Vec<Node>, b: Vec<Node>, count: nat)
    requires
        count <= a.len(),
        count <= b.len(),
        forall|i: int| 0 <= i < count ==> a[i] == b[i],
    ensures
        flat(a, count) == flat(b, count),
    decreases count,
{
    if count > 0 {
        lemma_flat_agree(a, b, (count - 1) as nat);
    }
}

/// Lists that agree in their first nodes agree in the defect of these.
proof fn lemma_defect_agree(
    a: Vec<Node>,
    b: Vec<Node>,
    count: nat,
    bound: Set<InstrSeqId>,
    locals: nat,
)
    requires
        count <= a.len(),
        count <= b.len(),
        forall|i: int| 0 <= i < count ==> a[i] == b[i],
    ensures
        tree_defect(a, count, bound, locals) == tree_defect(b, count, bound, locals),
    decreases count,
{
    if count > 0 {
        lemma_defect_agree(a, b, (count - 1) as nat, bound, locals);
    }
}

/// A list with one more node has the flat form of that node at the end of
/// its flat form, and is without a defect if it was and the node is.
proof fn lemma_push(
    before: Vec<Node>,
    after: Vec<Node>,
    node: Node,
    bound: Set<InstrSeqId>,
    locals: nat,
)
    requires
        after@ == before@.push(node),
    ensures
        flat_all(after) == flat_all(before) + flat_node(node),
        tree_defect(before, before.len() as nat, bound, locals) is None && node_defect(
            node,
            bound,
            locals,
        ) is None ==> tree_defect(after, after.len() as nat, bound, locals) is None,
{
    lemma_flat_agree(before, after, before.len() as nat);
    lemma_defect_agree(before, after, before.len() as nat, bound, locals);
}

proof fn lemma_open_frames_prefix(stream: Seq<Instr>, locals: nat, n: int)
    requires
        0 <= n <= stream.len(),
        open_frames(stream.take(n), locals) is Err,
    ensures
        open_frames(stream, locals) == open_frames(stream.take(n), locals),
    decreases stream.len(),
{
    if n < stream.len() {
        assert(stream.drop_last().take(n) == stream.take(n));
        lemma_open_frames_prefix(stream.drop_last(), locals, n);
    } else {
        assert(stream.take(n) == stream);
    }
}

/// Sequences without a label add nothing to the labels, and a labelled one
/// adds its label.
proof fn lemma_frame_labels_push(open: Seq<FrameKind>, kind: FrameKind)
    ensures
        frame_labels(open.push(kind)) == (match kind {
            FrameKind::Block(label) => frame_labels(open).insert(label),
            FrameKind::Loop(label) => frame_labels(open).insert(label),
            _ => frame_labels(open),
        }),
{
    let more = open.push(kind);
    let expected = match kind {
        FrameKind::Block(label) => frame_labels(open).insert(label),
        FrameKind::Loop(label) => frame_labels(open).insert(label),
        _ => frame_labels(open),
    };
    assert forall|label: InstrSeqId| frame_labels(more).contains(label) <==> expected.contains(
        label,
    ) by {
        if frame_labels(more).contains(label) {
            let k = choose|k: int|
                0 <= k < more.len() && (#[trigger] more[k] == FrameKind::Block(label) || more[k]
                    == FrameKind::Loop(label));
            if k < open.len() {
                assert(open[k] == more[k]);
            }
        }
        if frame_labels(open).contains(label) {
            let k = choose|k: int|
                0 <= k < open.len() && (#[trigger] open[k] == FrameKind::Block(label) || open[k]
                    == FrameKind::Loop(label));
            assert(more[k] == open[k]);
        }
        if kind == FrameKind::Block(label) || kind == FrameKind::Loop(label) {
            assert(more[open.len() as int] == kind);
        }
    }
    assert(frame_labels(more) =~= expected);
}

/// Appends a node to the innermost open sequence.
fn push_node(stack: &mut Vec<Frame>, node: Node, Ghost(locals): Ghost<nat>)
    requires
        old(stack)@.len() > 0,
        stack_clean(old(stack)@, locals),
        node_defect(node, frame_labels(stack_kinds(old(stack)@)), locals) is None,
    ensures
        final(stack)@.len() == old(stack)@.len(),
        stack_kinds(final(stack)@) == stack_kinds(old(stack)@),
        stack_flat(final(stack)@) == stack_flat(old(stack)@) + flat_node(node),
        stack_clean(final(stack)@, locals),
{
    let ghost before = stack@;
    let ghost kinds = stack_kinds(before);
    let mut top = stack.pop().unwrap();
    let ghost nodes = top.nodes;
    top.nodes.push(node);
    proof {
        assert(kinds.take(before.len() as int) == kinds);
        assert(frame_clean(before[before.len() - 1], frame_labels(kinds), locals));
        lemma_push(nodes, top.nodes, node, frame_labels(kinds), locals);
    }
    stack.push(top);
    assert(stack@.drop_last() == before.drop_last());
    assert(stack_kinds(stack@) =~= kinds);
    assert(frame_flat(stack@.last()) =~= frame_flat(before.last()) + flat_node(node));
    assert(stack_flat(stack@) =~= stack_flat(before) + flat_node(node));
    assert forall|k: int| 0 <= k < stack@.len() implies frame_clean(
        #[trigger] stack@[k],
        frame_labels(stack_kinds(stack@).take(k + 1)),
        locals,
    ) by {
        if k < stack@.len() - 1 {
            assert(stack@[k] == before[k]);
        }
    }
}

/// Opens a sequence of a kind other than the second arm of an `if`.
fn open_frame(
    stack: &mut Vec<Frame>,
    kind: FrameKind,
    Ghost(instr): Ghost<Instr>,
    Ghost(locals): Ghost<nat>,
)
    requires
        stack_clean(old(stack)@, locals),
        match kind {
            FrameKind::Block(label) => instr == Instr::Block(label),
            FrameKind::Loop(label) => instr == Instr::Loop(label),
            FrameKind::Then => instr == Instr::If,
            _ => false,
        },
    ensures
        final(stack)@.len() == old(stack)@.len() + 1,
        stack_kinds(final(stack)@) == stack_kinds(old(stack)@).push(kind),
        stack_flat(final(stack)@) == stack_flat(old(stack)@).push(instr),
        stack_clean(final(stack)@, locals),
{
    let ghost before = stack@;
    let frame = Frame { kind, nodes: Vec::new(), consequent: Vec::new() };
    assert(flat_all(frame.nodes) =~= Seq::<Instr>::empty());
    stack.push(frame);
    assert(stack@.drop_last() == before);
    assert(stack_kinds(stack@) =~= stack_kinds(before).push(kind));
    assert(frame_flat(stack@.last()) =~= seq![instr]);
    assert(stack_flat(stack@) =~= stack_flat(before).push(instr));
    assert forall|k: int| 0 <= k < stack@.len() implies frame_clean(
        #[trigger] stack@[k],
        frame_labels(stack_kinds(stack@).take(k + 1)),
        locals,
    ) by {
        if k < stack@.len() - 1 {
            assert(stack@[k] == before[k]);
            assert(stack_kinds(stack@).take(k + 1) =~= stack_kinds(before).take(k + 1));
        }
    }
}

/// Turns the innermost open sequence, which is the first arm of an `if`,
/// into the second.
fn turn_frame(stack: &mut Vec<Frame>, Ghost(locals): Ghost<nat>)
    requires
        old(stack)@.len() > 0,
        old(stack)@.last().kind == FrameKind::Then,
        stack_clean(old(stack)@, locals),
    ensures
        final(stack)@.len() == old(stack)@.len(),
        stack_kinds(final(stack)@) == stack_kinds(old(stack)@).drop_last().push(
            FrameKind::Otherwise,
        ),
        stack_flat(final(stack)@) == stack_flat(old(stack)@).push(Instr::Else),
        stack_clean(final(stack)@, locals),
{
    let ghost before = stack@;
    let ghost kinds = stack_kinds(before);
    let top = stack.pop().unwrap();
    let frame = Frame { kind: FrameKind::Otherwise, nodes: Vec::new(), consequent: top.nodes };
    assert(flat_all(frame.nodes) =~= Seq::<Instr>::empty());
    stack.push(frame);
    assert(stack@.drop_last() == before.drop_last());
    assert(stack_kinds(stack@) =~= kinds.drop_last().push(FrameKind::Otherwise));
    assert(frame_flat(stack@.last()) =~= frame_flat(before.last()).push(Instr::Else));
    assert(stack_flat(stack@) =~= stack_flat(before).push(Instr::Else));
    assert forall|k: int| 0 <= k < stack@.len() implies frame_clean(
        #[trigger] stack@[k],
        frame_labels(stack_kinds(stack@).take(k + 1)),
        locals,
    ) by {
        if k < stack@.len() - 1 {
            assert(stack@[k] == before[k]);
            assert(stack_kinds(stack@).take(k + 1) =~= kinds.take(k + 1));
        } else {
            assert(frame_clean(before[k], frame_labels(kinds.take(k + 1)), locals));
            assert(kinds.take(k + 1) =~= kinds.drop_last().push(FrameKind::Then));
            assert(stack_kinds(stack@).take(k + 1) =~= kinds.drop_last().push(
                FrameKind::Otherwise,
            ));
            lemma_frame_labels_push(kinds.drop_last(), FrameKind::Then);
            lemma_frame_labels_push(kinds.drop_last(), FrameKind::Otherwise);
        }
    }
}

/// Closes the innermost open sequence, which is not the body and not the
/// first arm of an `if`, and appends it as a node to the sequence around it.
fn close_frame(stack: &mut Vec<Frame>, Ghost(locals): Ghost<nat>)
    requires
        old(stack)@.len() > 1,
        old(stack)@.last().kind != FrameKind::Then,
        old(stack)@.last().kind != FrameKind::Body,
        stack_clean(old(stack)@, locals),
    ensures
        final(stack)@.len() == old(stack)@.len() - 1,
        stack_kinds(final(stack)@) == stack_kinds(old(stack)@).drop_last(),
        stack_flat(final(stack)@) == stack_flat(old(stack)@).push(Instr::End),
        stack_clean(final(stack)@, locals),
{
    let ghost before = stack@;
    let ghost kinds = stack_kinds(before);
    let top = stack.pop().unwrap();
    let ghost rest = stack@;
    let ghost inner = frame_flat(top);
    let ghost around = frame_labels(kinds.drop_last());
    proof {
        assert(rest == before.drop_last());
        assert(stack_kinds(rest) =~= kinds.drop_last());
        assert(kinds.take(before.len() as int) == kinds);
        assert(kinds == kinds.drop_last().push(top.kind));
        assert(frame_clean(before[before.len() - 1], frame_labels(kinds), locals));
        lemma_frame_labels_push(kinds.drop_last(), top.kind);
        assert forall|k: int| 0 <= k < rest.len() implies frame_clean(
            #[trigger] rest[k],
            frame_labels(stack_kinds(rest).take(k + 1)),
            locals,
        ) by {
            assert(rest[k] == before[k]);
            assert(stack_kinds(rest).take(k + 1) =~= kinds.take(k + 1));
        }
    }
    let node = match top.kind {
        FrameKind::Block(label) => Node::Block(label, top.nodes),
        FrameKind::Loop(label) => Node::Loop(label, top.nodes),
        _ => Node::IfElse(top.consequent, top.nodes),
    };
    assert(flat_node(node) =~= inner.push(Instr::End));
    assert(node_defect(node, around, locals) is None);
    push_node(stack, node, Ghost(locals));
    assert(stack_flat(stack@) =~= (stack_flat(rest) + inner).push(Instr::End));
}

/// Is the label that of an open block or loop?
#[verifier::loop_isolation(false)]
fn is_open(stack: &Vec<Frame>, label: InstrSeqId) -> (r: bool)
    ensures
        r == frame_labels(stack_kinds(stack@)).contains(label),
{
    let ghost kinds = stack_kinds(stack@);
    let mut k: usize = 0;
    while k < stack.len()
        invariant
            k <= stack.len(),
            forall|j: int|
                0 <= j < k ==> kinds[j] != FrameKind::Block(label) && kinds[j] != FrameKind::Loop(
                    label,
                ),
        decreases stack.len() - k,
    {
        let found = match stack[k].kind {
            FrameKind::Block(other) => other == label,
            FrameKind::Loop(other) => other == label,
            _ => false,
        };
        if found {
            assert(kinds[k as int] == FrameKind::Block(label) || kinds[k as int]
                == FrameKind::Loop(label));
            return true;
        }
        k += 1;
    }
    false
}

/// What keeps an instruction that nests nothing from being built.
fn check_instr(instr: Instr, stack: &Vec<Frame>, locals: usize) -> (r: Option<TranslationError>)
    ensures
        r == instr_defect(instr, frame_labels(stack_kinds(stack@)), locals as nat),
{
    match instr {
        Instr::LocalGet(local) => if local < locals {
            None
        } else {
            Some(TranslationError::UnknownLocal(local))
        },
        Instr::LocalSet(local) => if local < locals {
            None
        } else {
            Some(TranslationError::UnknownLocal(local))
        },
        Instr::Br(label) => if is_open(stack, label) {
            None
        } else {
            Some(TranslationError::UnboundLabel(label))
        },
        Instr::BrIf(label) => if is_open(stack, label) {
            None
        } else {
            Some(TranslationError::UnboundLabel(label))
        },
        Instr::I32Const(_) => None,
        Instr::I64Const(_) => None,
        Instr::Binop(_) => None,
        Instr::Return => None,
        Instr::Unreachable => None,
        _ => Some(TranslationError::MisplacedMarker),
    }
}

/// Parses the flat list of the instructions of a body with `locals` locals
/// into its nested sequences.
///
/// The list must be without a defect, see [`body_defect`]. The nodes that
/// are returned then have the list as their flat form, and are without a
/// defect, see [`tree_defect`].
pub fn parse_body(stream: &Vec<Instr>, locals: usize) -> (r: Result<Vec<Node>, TranslationError>)
    ensures
        match body_defect(stream@, locals as nat) {
            Some(e) => r == Err::<Vec<Node>, TranslationError>(e),
            None => {
                &&& r is Ok
                &&& flat_all(r->Ok_0) == stream@
                &&& tree_defect(r->Ok_0, r->Ok_0.len() as nat, Set::empty(), locals as nat) is None
            },
        },
{
    let mut stack: Vec<Frame> = Vec::new();
    let body = Frame { kind: FrameKind::Body, nodes: Vec::new(), consequent: Vec::new() };
    assert(flat_all(body.nodes) =~= Seq::<Instr>::empty());
    stack.push(body);
    assert(stack@.drop_last() =~= Seq::<Frame>::empty());
    assert(stack_flat(stack@.drop_last()) =~= Seq::<Instr>::empty());
    assert(frame_flat(stack@.last()) =~= Seq::<Instr>::empty());
    assert(stack_flat(stack@) =~= Seq::<Instr>::empty());
    assert(stack_kinds(stack@) =~= seq![FrameKind::Body]);
    assert(stream@.take(0) =~= Seq::<Instr>::empty());
    let mut i: usize = 0;
    while i < stream.len()
        invariant
            i <= stream.len(),
            stack@.len() > 0,
            open_frames(stream@.take(i as int), locals as nat) == Ok::<
                Seq<FrameKind>,
                TranslationError,
            >(stack_kinds(stack@)),
            stack_kinds(stack@)[0] == FrameKind::Body,
            forall|k: int| 0 < k < stack@.len() ==> stack_kinds(stack@)[k] != FrameKind::Body,
            stack_flat(stack@) == stream@.take(i as int),
            stack_clean(stack@, locals as nat),
        decreases stream.len() - i,
    {
        let instr = stream[i];
        let ghost open = stack_kinds(stack@);
        assert(stream@.take(i + 1).drop_last() == stream@.take(i as int));
        assert(stream@.take(i + 1) == stream@.take(i as int).push(instr));
        assert(open_frames(stream@.take(i + 1), locals as nat) == step_frames(
            open,
            instr,
            i,
            locals as nat,
        ));
        match instr {
            Instr::Block(label) => open_frame(
                &mut stack,
                FrameKind::Block(label),
                Ghost(instr),
                Ghost(locals as nat),
            ),
            Instr::Loop(label) => open_frame(
                &mut stack,
                FrameKind::Loop(label),
                Ghost(instr),
                Ghost(locals as nat),
            ),
            Instr::If => open_frame(&mut stack, FrameKind::Then, Ghost(instr), Ghost(locals as nat)),
            Instr::Else => {
                let turn = stack.len() > 1 && match stack[stack.len() - 1].kind {
                    FrameKind::Then => true,
                    _ => false,
                };
                assert(open.last() == stack@.last().kind);
                if !turn {
                    proof {
                        lemma_open_frames_prefix(stream@, locals as nat, i + 1);
                    }
                    return Err(TranslationError::UnopenedSequence(i));
                }
                turn_frame(&mut stack, Ghost(locals as nat));
            },
            Instr::End => {
                assert(open.last() == stack@.last().kind);
                if stack.len() <= 1 {
                    proof {
                        lemma_open_frames_prefix(stream@, locals as nat, i + 1);
                    }
                    return Err(TranslationError::UnopenedSequence(i));
                }
                let then = match stack[stack.len() - 1].kind {
                    FrameKind::Then => true,
                    _ => false,
                };
                if then {
                    proof {
                        lemma_open_frames_prefix(stream@, locals as nat, i + 1);
                    }
                    return Err(TranslationError::MissingElse(i));
                }
                assert(stack_kinds(stack@)[stack@.len() - 1] != FrameKind::Body);
                close_frame(&mut stack, Ghost(locals as nat));
            },
            _ => {
                if let Some(e) = check_instr(instr, &stack, locals) {
                    proof {
                        lemma_open_frames_prefix(stream@, locals as nat, i + 1);
                    }
                    return Err(e);
                }
                assert(flat_node(Node::Plain(instr)) =~= seq![instr]);
                push_node(&mut stack, Node::Plain(instr), Ghost(locals as nat));
            },
        }
        i += 1;
    }
    assert(stream@.take(i as int) == stream@);
    if stack.len() != 1 {
        return Err(TranslationError::UnclosedSequence(stack.len() - 1));
    }
    let ghost frames = stack@;
    let body = stack.pop().unwrap();
    proof {
        assert(frames.last() == body);
        assert(stack_kinds(frames)[0] == body.kind);
        assert(frames.drop_last() =~= Seq::<Frame>::empty());
        assert(stack_flat(frames.drop_last()) =~= Seq::<Instr>::empty());
        assert(stack_flat(frames) =~= frame_flat(body));
        assert(frame_clean(frames[0], frame_labels(stack_kinds(frames).take(1)), locals as nat));
        assert(stack_kinds(frames).take(1) =~= seq![FrameKind::Body]);
        assert(frame_labels(seq![FrameKind::Body]) =~= Set::<InstrSeqId>::empty()) by {
            assert forall|label: InstrSeqId| !frame_labels(seq![FrameKind::Body]).contains(
                label,
            ) by {
                if frame_labels(seq![FrameKind::Body]).contains(label) {
                    let k = choose|k: int|
                        0 <= k < seq![FrameKind::Body].len() && (#[trigger] seq![
                            FrameKind::Body,
                        ][k] == FrameKind::Block(label) || seq![FrameKind::Body][k]
                            == FrameKind::Loop(label));
                }
            }
        }
    }
    Ok(body.nodes)
}

/// What stands for a node keeps standing for it while the sequences outside
/// of `avoid` keep what they hold.
pub proof fn lemma_stands_frame(
    seqs: Map<SeqRef, Seq<Op>>,
    after: Map<SeqRef, Seq<Op>>,
    op: Op,
    node: Node,
    env: Map<InstrSeqId, SeqRef>,
    refs: Seq<LocalRef>,
    avoid: Set<SeqRef>,
)
    requires
        stands_for(seqs, op, node, env, refs, avoid),
        forall|k: SeqRef|
            seqs.contains_key(k) && !avoid.contains(k) ==> after.contains_key(k) && after[k]
                == seqs[k],
    ensures
        stands_for(after, op, node, env, refs, avoid),
    decreases node, 0nat,
{
    match node {
        Node::Plain(_) => {},
        Node::Block(label, body) => {
            lemma_holds_frame(
                seqs,
                after,
                op->Block_0,
                body,
                body.len() as nat,
                env.insert(label, op->Block_0),
                refs,
                avoid,
            );
        },
        Node::Loop(label, body) => {
            lemma_holds_frame(
                seqs,
                after,
                op->Loop_0,
                body,
                body.len() as nat,
                env.insert(label, op->Loop_0),
                refs,
                avoid,
            );
        },
        Node::IfElse(consequent, alternative) => {
            lemma_holds_frame(
                seqs,
                after,
                op->IfElse_0,
                consequent,
                consequent.len() as nat,
                env,
                refs,
                avoid,
            );
            lemma_holds_frame(
                seqs,
                after,
                op->IfElse_1,
                alternative,
                alternative.len() as nat,
                env,
                refs,
                avoid,
            );
        },
    }
}

/// A sequence outside of `avoid` that holds nodes keeps holding them while
/// the sequences outside of `avoid` keep what they hold.
pub proof fn lemma_holds_frame(
    seqs: Map<SeqRef, Seq<Op>>,
    after: Map<SeqRef, Seq<Op>>,
    seq: SeqRef,
    nodes: Vec<Node>,
    count: nat,
    env: Map<InstrSeqId, SeqRef>,
    refs: Seq<LocalRef>,
    avoid: Set<SeqRef>,
)
    requires
        holds(seqs, seq, nodes, count, env, refs, avoid),
        !avoid.contains(seq),
        forall|k: SeqRef|
            seqs.contains_key(k) && !avoid.contains(k) ==> after.contains_key(k) && after[k]
                == seqs[k],
    ensures
        holds(after, seq, nodes, count, env, refs, avoid),
    decreases nodes, 1nat,
{
    assert forall|i: int| 0 <= i < count implies stands_for(
        after,
        #[trigger] after[seq][i],
        nodes[i],
        env,
        refs,
        avoid,
    ) by {
        assert(stands_for(seqs, seqs[seq][i], nodes[i], env, refs, avoid));
        lemma_stands_frame(seqs, after, seqs[seq][i], nodes[i], env, refs, avoid);
    }
}

/// What stands for a node while some sequences are avoided stands for it
/// while fewer are.
pub proof fn lemma_stands_weaken(
    seqs: Map<SeqRef, Seq<Op>>,
    op: Op,
    node: Node,
    env: Map<InstrSeqId, SeqRef>,
    refs: Seq<LocalRef>,
    avoid: Set<SeqRef>,
    fewer: Set<SeqRef>,
)
    requires
        stands_for(seqs, op, node, env, refs, avoid),
        fewer.subset_of(avoid),
    ensures
        stands_for(seqs, op, node, env, refs, fewer),
    decreases node, 0nat,
{
    match node {
        Node::Plain(_) => {},
        Node::Block(label, body) => {
            lemma_holds_weaken(
                seqs,
                op->Block_0,
                body,
                body.len() as nat,
                env.insert(label, op->Block_0),
                refs,
                avoid,
                fewer,
            );
        },
        Node::Loop(label, body) => {
            lemma_holds_weaken(
                seqs,
                op->Loop_0,
                body,
                body.len() as nat,
                env.insert(label, op->Loop_0),
                refs,
                avoid,
                fewer,
            );
        },
        Node::IfElse(consequent, alternative) => {
            lemma_holds_weaken(
                seqs,
                op->IfElse_0,
                consequent,
                consequent.len() as nat,
                env,
                refs,
                avoid,
                fewer,
            );
            lemma_holds_weaken(
                seqs,
                op->IfElse_1,
                alternative,
                alternative.len() as nat,
                env,
                refs,
                avoid,
                fewer,
            );
        },
    }
}

/// A sequence that holds nodes while some sequences are avoided holds them
/// while fewer are.
pub proof fn lemma_holds_weaken(
    seqs: Map<SeqRef, Seq<Op>>,
    seq: SeqRef,
    nodes: Vec<Node>,
    count: nat,
    env: Map<InstrSeqId, SeqRef>,
    refs: Seq<LocalRef>,
    avoid: Set<SeqRef>,
    fewer: Set<SeqRef>,
)
    requires
        holds(seqs, seq, nodes, count, env, refs, avoid),
        fewer.subset_of(avoid),
    ensures
        holds(seqs, seq, nodes, count, env, refs, fewer),
    decreases nodes, 1nat,
{
    assert forall|i: int| 0 <= i < count implies stands_for(
        seqs,
        #[trigger] seqs[seq][i],
        nodes[i],
        env,
        refs,
        fewer,
    ) by {
        lemma_stands_weaken(seqs, seqs[seq][i], nodes[i], env, refs, avoid, fewer);
    }
}

/// Without a defect among the first nodes, none of them has one.
proof fn lemma_tree_defect_none(
    nodes: Vec<Node>,
    bound: Set<InstrSeqId>,
    locals: nat,
    count: nat,
    i: int,
)
    requires
        count <= nodes.len(),
        0 <= i < count,
        tree_defect(nodes, count, bound, locals) is None,
    ensures
        node_defect(nodes[i], bound, locals) is None,
    decreases count,
{
    if i < count - 1 {
        lemma_tree_defect_none(nodes, bound, locals, (count - 1) as nat, i);
    }
}

/// The sequence of each label of a list of labels with their sequences,
/// where a later entry for a label replaces an earlier one.
pub open spec fn env_map(env: Seq<(InstrSeqId, SeqRef)>) -> Map<InstrSeqId, SeqRef>
    decreases env.len(),
{
    if env.len() == 0 {
        Map::empty()
    } else {
        env_map(env.drop_last()).insert(env.last().0, env.last().1)
    }
}

/// The last entry for a label decides.
proof fn lemma_env_map(env: Seq<(InstrSeqId, SeqRef)>, label: InstrSeqId, from: int)
    requires
        0 <= from <= env.len(),
        forall|j: int| from <= j < env.len() ==> env[j].0 != label,
    ensures
        from > 0 && env[from - 1].0 == label ==> env_map(env).contains_key(label) && env_map(
            env,
        )[label] == env[from - 1].1,
        from == 0 ==> !env_map(env).contains_key(label),
    decreases env.len(),
{
    if env.len() > 0 {
        if from < env.len() {
            lemma_env_map(env.drop_last(), label, from);
        }
    }
}

/// The sequence of a label that encloses.
#[verifier::loop_isolation(false)]
fn find_seq(env: &Vec<(InstrSeqId, SeqRef)>, label: InstrSeqId) -> (r: Option<SeqRef>)
    ensures
        r == (if env_map(env@).contains_key(label) {
            Some(env_map(env@)[label])
        } else {
            None
        }),
{
    let mut i: usize = env.len();
    while i > 0
        invariant
            i <= env.len(),
            forall|j: int| i <= j < env.len() ==> env@[j].0 != label,
        decreases i,
    {
        if env[i - 1].0 == label {
            proof {
                lemma_env_map(env@, label, i as int);
            }
            return Some(env[i - 1].1);
        }
        i -= 1;
    }
    proof {
        lemma_env_map(env@, label, 0);
    }
    None
}

/// Appends an instruction that nests nothing to a sequence of a function.
fn load_plain(
    instr: Instr,
    builder: &mut walrus::FunctionBuilder,
    seq: SeqRef,
    env: &Vec<(InstrSeqId, SeqRef)>,
    refs: &Vec<LocalRef>,
)
    requires
        builder_view(*old(builder)).seqs.contains_key(seq),
        instr_defect(instr, env_map(env@).dom(), refs@.len()) is None,
    ensures
        plain_op(instr, env_map(env@), refs@) is Some,
        builder_view(*final(builder)) == with_op(
            builder_view(*old(builder)),
            seq,
            plain_op(instr, env_map(env@), refs@)->Some_0,
        ),
{
    match instr {
        Instr::LocalGet(local) => push_local_get(builder, seq, refs[local]),
        Instr::LocalSet(local) => push_local_set(builder, seq, refs[local]),
        Instr::I32Const(value) => push_i32_const(builder, seq, value),
        Instr::I64Const(value) => push_i64_const(builder, seq, value),
        Instr::Binop(op) => push_binop(builder, seq, op),
        Instr::Br(label) => match find_seq(env, label) {
            Some(target) => push_br(builder, seq, target),
            None => {},
        },
        Instr::BrIf(label) => match find_seq(env, label) {
            Some(target) => push_br_if(builder, seq, target),
            None => {},
        },
        Instr::Return => push_return(builder, seq),
        Instr::Unreachable => push_unreachable(builder, seq),
        _ => {},
    }
}

/// What a function under construction holds, but for its sequences.
pub open spec fn same_header(a: BuilderView, b: BuilderView) -> bool {
    &&& a.params == b.params
    &&& a.results == b.results
    &&& a.name == b.name
    &&& a.body == b.body
}

/// Has a sequence of a function got the first `count` nodes of a list at its
/// end, in sequences that the function did not have, while the other
/// sequences that the function had kept what they held?
pub open spec fn loaded(
    before: BuilderView,
    after: BuilderView,
    seq: SeqRef,
    nodes: Vec<Node>,
    count: nat,
    env: Map<InstrSeqId, SeqRef>,
    refs: Seq<LocalRef>,
) -> bool {
    &&& same_header(before, after)
    &&& count <= nodes.len()
    &&& forall|k: SeqRef| #[trigger]
        before.seqs.contains_key(k) ==> after.seqs.contains_key(k) && (k != seq ==> after.seqs[k]
            == before.seqs[k])
    &&& after.seqs[seq].len() == before.seqs[seq].len() + count
    &&& forall|i: int|
        0 <= i < before.seqs[seq].len() ==> #[trigger] after.seqs[seq][i] == before.seqs[seq][i]
    &&& forall|i: int|
        0 <= i < count ==> stands_for(
            after.seqs,
            #[trigger] after.seqs[seq][before.seqs[seq].len() + i],
            nodes[i],
            env,
            refs,
            before.seqs.dom(),
        )
}

/// A sequence that was empty and got nodes holds them.
pub proof fn lemma_loaded_holds(
    before: BuilderView,
    after: BuilderView,
    seq: SeqRef,
    nodes: Vec<Node>,
    env: Map<InstrSeqId, SeqRef>,
    refs: Seq<LocalRef>,
)
    requires
        before.seqs.contains_key(seq),
        before.seqs[seq].len() == 0,
        loaded(before, after, seq, nodes, nodes.len() as nat, env, refs),
    ensures
        holds(after.seqs, seq, nodes, nodes.len() as nat, env, refs, before.seqs.dom()),
{
    assert(after.seqs.contains_key(seq));
    assert forall|i: int| 0 <= i < nodes.len() implies stands_for(
        after.seqs,
        #[trigger] after.seqs[seq][i],
        nodes[i],
        env,
        refs,
        before.seqs.dom(),
    ) by {
        assert(stands_for(
            after.seqs,
            after.seqs[seq][before.seqs[seq].len() + i],
            nodes[i],
            env,
            refs,
            before.seqs.dom(),
        ));
    }
}

/// A sequence that got the first nodes of a list has got one more, once the
/// instruction that stands for the next node is at its end.
proof fn lemma_loaded_step(
    before: BuilderView,
    now: BuilderView,
    mid: BuilderView,
    after: BuilderView,
    seq: SeqRef,
    nodes: Vec<Node>,
    count: nat,
    op: Op,
    env: Map<InstrSeqId, SeqRef>,
    refs: Seq<LocalRef>,
)
    requires
        before.seqs.contains_key(seq),
        count < nodes.len(),
        loaded(before, now, seq, nodes, count, env, refs),
        same_header(now, mid),
        forall|k: SeqRef| #[trigger]
            now.seqs.contains_key(k) ==> mid.seqs.contains_key(k) && mid.seqs[k] == now.seqs[k],
        after == with_op(mid, seq, op),
        stands_for(mid.seqs, op, nodes[count as int], env, refs, before.seqs.dom()),
    ensures
        loaded(before, after, seq, nodes, count + 1, env, refs),
{
    let avoid = before.seqs.dom();
    let base = before.seqs[seq].len();
    assert(now.seqs.contains_key(seq));
    assert(mid.seqs.contains_key(seq));
    assert(after.seqs[seq] == mid.seqs[seq].push(op));
    assert forall|k: SeqRef| #[trigger] before.seqs.contains_key(k) implies after.seqs.contains_key(
        k,
    ) && (k != seq ==> after.seqs[k] == before.seqs[k]) by {
        assert(now.seqs.contains_key(k));
    }
    assert forall|k: SeqRef| mid.seqs.contains_key(k) && !avoid.contains(k) implies after.seqs.contains_key(
        k,
    ) && after.seqs[k] == mid.seqs[k] by {}
    assert forall|k: SeqRef| now.seqs.contains_key(k) && !avoid.contains(k) implies after.seqs.contains_key(
        k,
    ) && after.seqs[k] == now.seqs[k] by {
        assert(mid.seqs.contains_key(k));
    }
    assert forall|i: int| 0 <= i < count + 1 implies stands_for(
        after.seqs,
        #[trigger] after.seqs[seq][base + i],
        nodes[i],
        env,
        refs,
        avoid,
    ) by {
        if i < count {
            assert(after.seqs[seq][base + i] == now.seqs[seq][base + i]);
            assert(stands_for(now.seqs, now.seqs[seq][base + i], nodes[i], env, refs, avoid));
            lemma_stands_frame(
                now.seqs,
                after.seqs,
                now.seqs[seq][base + i],
                nodes[i],
                env,
                refs,
                avoid,
            );
        } else {
            assert(after.seqs[seq][base + i] == op);
            lemma_stands_frame(mid.seqs, after.seqs, op, nodes[i], env, refs, avoid);
        }
    }
    assert forall|i: int| 0 <= i < base implies #[trigger] after.seqs[seq][i]
        == before.seqs[seq][i] by {
        assert(now.seqs[seq][i] == before.seqs[seq][i]);
    }
}

/// A sequence that the function did not have, filled with nodes, holds them
/// also when fewer sequences are avoided, and keeps holding them.
proof fn lemma_filled(
    before: BuilderView,
    now: BuilderView,
    opened: BuilderView,
    filled: BuilderView,
    inner: SeqRef,
    body: Vec<Node>,
    env: Map<InstrSeqId, SeqRef>,
    refs: Seq<LocalRef>,
)
    requires
        forall|k: SeqRef| #[trigger] before.seqs.contains_key(k) ==> now.seqs.contains_key(k),
        !now.seqs.contains_key(inner),
        opened == (BuilderView { seqs: now.seqs.insert(inner, Seq::empty()), ..now }),
        loaded(opened, filled, inner, body, body.len() as nat, env, refs),
    ensures
        same_header(now, filled),
        !before.seqs.dom().contains(inner),
        holds(filled.seqs, inner, body, body.len() as nat, env, refs, before.seqs.dom()),
        forall|k: SeqRef| #[trigger]
            now.seqs.contains_key(k) ==> filled.seqs.contains_key(k) && filled.seqs[k]
                == now.seqs[k],
        forall|k: SeqRef| #[trigger] opened.seqs.contains_key(k) ==> filled.seqs.contains_key(k),
{
    assert(opened.seqs.contains_key(inner));
    lemma_loaded_holds(opened, filled, inner, body, env, refs);
    assert(before.seqs.dom().subset_of(opened.seqs.dom())) by {
        assert forall|k: SeqRef| before.seqs.dom().contains(k) implies opened.seqs.dom().contains(
            k,
        ) by {
            assert(before.seqs.contains_key(k));
            assert(now.seqs.contains_key(k));
        }
    }
    lemma_holds_weaken(
        filled.seqs,
        inner,
        body,
        body.len() as nat,
        env,
        refs,
        opened.seqs.dom(),
        before.seqs.dom(),
    );
    if before.seqs.dom().contains(inner) {
        assert(before.seqs.contains_key(inner));
        assert(now.seqs.contains_key(inner));
    }
    assert forall|k: SeqRef| #[trigger] now.seqs.contains_key(k) implies filled.seqs.contains_key(
        k,
    ) && filled.seqs[k] == now.seqs[k] by {
        assert(opened.seqs.contains_key(k));
    }
}

/// Builds a list of nodes up at the end of a sequence of a function.
///
/// The nodes must be without a defect, see [`tree_defect`], where the labels
/// of `env` enclose them and `refs` are the locals of the body.
#[verifier::loop_isolation(false)]
pub(crate) fn load_nodes(
    nodes: &Vec<Node>,
    builder: &mut walrus::FunctionBuilder,
    seq: SeqRef,
    env: &mut Vec<(InstrSeqId, SeqRef)>,
    refs: &Vec<LocalRef>,
)
    requires
        builder_view(*old(builder)).seqs.contains_key(seq),
        tree_defect(*nodes, nodes.len() as nat, env_map(old(env)@).dom(), refs@.len()) is None,
    ensures
        final(env)@ == old(env)@,
        loaded(
            builder_view(*old(builder)),
            builder_view(*final(builder)),
            seq,
            *nodes,
            nodes.len() as nat,
            env_map(old(env)@),
            refs@,
        ),
    decreases nodes,
{
    let ghost before = builder_view(*builder);
    let ghost labels = env_map(env@);
    let ghost start = env@;
    let ghost avoid = before.seqs.dom();
    let mut j: usize = 0;
    while j < nodes.len()
        invariant
            j <= nodes.len(),
            env@ == start,
            loaded(before, builder_view(*builder), seq, *nodes, j as nat, labels, refs@),
        decreases nodes.len() - j,
    {
        let ghost now = builder_view(*builder);
        assert(now.seqs.contains_key(seq));
        proof {
            lemma_tree_defect_none(
                *nodes,
                labels.dom(),
                refs@.len(),
                nodes.len() as nat,
                j as int,
            );
        }
        match &nodes[j] {
            Node::Plain(instr) => {
                load_plain(*instr, builder, seq, env, refs);
                proof {
                    lemma_loaded_step(
                        before,
                        now,
                        now,
                        builder_view(*builder),
                        seq,
                        *nodes,
                        j as nat,
                        plain_op(*instr, labels, refs@)->Some_0,
                        labels,
                        refs@,
                    );
                }
            },
            Node::Block(label, body) => {
                let inner = new_seq(builder);
                let ghost opened = builder_view(*builder);
                env.push((*label, inner));
                assert(env@.drop_last() == start);
                assert(env_map(env@).dom() =~= labels.dom().insert(*label));
                assert(opened.seqs.contains_key(inner));
                load_nodes(body, builder, inner, env, refs);
                env.pop();
                assert(env@ =~= start);
                let ghost filled = builder_view(*builder);
                proof {
                    lemma_filled(
                        before,
                        now,
                        opened,
                        filled,
                        inner,
                        *body,
                        labels.insert(*label, inner),
                        refs@,
                    );
                    assert(filled.seqs.contains_key(seq));
                }
                push_block(builder, seq, inner);
                proof {
                    lemma_loaded_step(
                        before,
                        now,
                        filled,
                        builder_view(*builder),
                        seq,
                        *nodes,
                        j as nat,
                        Op::Block(inner),
                        labels,
                        refs@,
                    );
                }
            },
            Node::Loop(label, body) => {
                let inner = new_seq(builder);
                let ghost opened = builder_view(*builder);
                env.push((*label, inner));
                assert(env@.drop_last() == start);
                assert(env_map(env@).dom() =~= labels.dom().insert(*label));
                assert(opened.seqs.contains_key(inner));
                load_nodes(body, builder, inner, env, refs);
                env.pop();
                assert(env@ =~= start);
                let ghost filled = builder_view(*builder);
                proof {
                    lemma_filled(
                        before,
                        now,
                        opened,
                        filled,
                        inner,
                        *body,
                        labels.insert(*label, inner),
                        refs@,
                    );
                    assert(filled.seqs.contains_key(seq));
                }
                push_loop(builder, seq, inner);
                proof {
                    lemma_loaded_step(
                        before,
                        now,
                        filled,
                        builder_view(*builder),
                        seq,
                        *nodes,
                        j as nat,
                        Op::Loop(inner),
                        labels,
                        refs@,
                    );
                }
            },
            Node::IfElse(consequent, alternative) => {
                let first = new_seq(builder);
                let ghost opened = builder_view(*builder);
                assert(opened.seqs.contains_key(first));
                load_nodes(consequent, builder, first, env, refs);
                let ghost half = builder_view(*builder);
                proof {
                    lemma_filled(before, now, opened, half, first, *consequent, labels, refs@);
                    assert(half.seqs.contains_key(first));
                }
                let second = new_seq(builder);
                let ghost reopened = builder_view(*builder);
                assert(reopened.seqs.contains_key(second));
                load_nodes(alternative, builder, second, env, refs);
                let ghost filled = builder_view(*builder);
                proof {
                    assert forall|k: SeqRef| #[trigger]
                        before.seqs.contains_key(k) implies half.seqs.contains_key(k) by {
                        assert(now.seqs.contains_key(k));
                    }
                    lemma_filled(before, half, reopened, filled, second, *alternative, labels, refs@);
                    lemma_holds_frame(
                        half.seqs,
                        filled.seqs,
                        first,
                        *consequent,
                        consequent.len() as nat,
                        labels,
                        refs@,
                        avoid,
                    );
                    assert forall|k: SeqRef| #[trigger]
                        now.seqs.contains_key(k) implies filled.seqs.contains_key(k)
                        && filled.seqs[k] == now.seqs[k] by {
                        assert(half.seqs.contains_key(k));
                    }
                    assert(filled.seqs.contains_key(seq));
                }
                push_if_else(builder, seq, first, second);
                proof {
                    lemma_loaded_step(
                        before,
                        now,
                        filled,
                        builder_view(*builder),
                        seq,
                        *nodes,
                        j as nat,
                        Op::IfElse(first, second),
                        labels,
                        refs@,
                    );
                }
            },
        }
        j += 1;
    }
}

} // verus!
