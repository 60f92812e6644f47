//! Recover the complete control-flow graph, including structured loop edges.
use super::ir::{
    body_models, function_models, models, FunctionModel, IRExpr, IRInst, InstModel, LoopId,
    SyntheticFunction,
};
use crate::table::Key;
use vstd::prelude::*;

verus! {

impl Key for LoopId {
    fn equal(&self, other: &Self) -> (res: bool) {
        *self == *other
    }
}

/// How control leaves a node.
#[derive(Debug)]
pub enum Transfer {
    Goto(usize),
    Branch { condition: IRExpr, then_node: usize, else_node: usize },
    Exit(IRInst),
}

pub enum TransferModel {
    Goto(usize),
    Branch { condition: IRExpr, then_node: usize, else_node: usize },
    Exit(InstModel),
}

#[derive(Debug)]
pub struct Node {
    pub offset: usize,
    pub body: Vec<(usize, IRInst)>,
    pub transfer: Transfer,
}

pub struct NodeModel {
    pub offset: usize,
    pub body: Seq<(usize, InstModel)>,
    pub transfer: TransferModel,
}

impl Transfer {
    pub open spec fn model(self) -> TransferModel {
        match self {
            Transfer::Goto(target) => TransferModel::Goto(target),
            Transfer::Branch { condition, then_node, else_node } => TransferModel::Branch {
                condition,
                then_node,
                else_node,
            },
            Transfer::Exit(instr) => TransferModel::Exit(instr.model()),
        }
    }

    fn copied(&self) -> (res: Self)
        ensures
            res.model() == self.model(),
    {
        match self {
            Transfer::Goto(target) => Transfer::Goto(*target),
            Transfer::Branch { condition, then_node, else_node } => Transfer::Branch {
                condition: condition.clone(),
                then_node: *then_node,
                else_node: *else_node,
            },
            Transfer::Exit(instr) => Transfer::Exit(instr.clone()),
        }
    }
}

impl TransferModel {
    /// Whether control can pass on to the node.
    pub open spec fn leads_to(self, node: int) -> bool {
        match self {
            TransferModel::Goto(target) => target == node,
            TransferModel::Branch { then_node, else_node, .. } => then_node == node || else_node
                == node,
            TransferModel::Exit(_) => false,
        }
    }

    /// Whether control only passes on to the first `count` nodes.
    pub open spec fn stays_within(self, count: int) -> bool {
        match self {
            TransferModel::Goto(target) => target < count,
            TransferModel::Branch { then_node, else_node, .. } => then_node < count && else_node
                < count,
            TransferModel::Exit(_) => true,
        }
    }
}

impl Node {
    pub open spec fn model(self) -> NodeModel {
        NodeModel {
            offset: self.offset,
            body: body_models(self.body@),
            transfer: self.transfer.model(),
        }
    }

    /// The nodes that control can pass on to, each once.
    pub fn successors(&self) -> (res: Vec<usize>)
        ensures
            res@.len() <= 2,
            forall|n: usize| #[trigger]
                res@.contains(n) <==> self.model().transfer.leads_to(n as int),
            forall|i: int, j: int| 0 <= i < j < res@.len() ==> res@[i] != res@[j],
    {
        let mut res: Vec<usize> = Vec::new();
        match &self.transfer {
            Transfer::Goto(target) => {
                res.push(*target);
                assert(res@[0] == *target);
            },
            Transfer::Branch { then_node, else_node, .. } => {
                res.push(*then_node);
                if *then_node != *else_node {
                    res.push(*else_node);
                    assert(res@[1] == *else_node);
                }
                assert(res@[0] == *then_node);
            },
            Transfer::Exit(_) => {},
        }
        res
    }
}

pub open spec fn node_models(nodes: Seq<Node>) -> Seq<NodeModel> {
    nodes.map_values(|n: Node| n.model())
}

/// Whether every edge ends at a node.
pub open spec fn closed(nodes: Seq<NodeModel>) -> bool {
    forall|i: int|
        0 <= i < nodes.len() ==> (#[trigger] nodes[i]).transfer.stays_within(nodes.len() as int)
}

// ---------------------------------------------------------------------------
// Building

/// Where breaks and continues lead.
pub struct Targets {
    /// What follows the enclosing loop, and its header.
    pub enclosing: Option<(usize, usize)>,
    pub labeled: Map<LoopId, usize>,
}

struct LoopTargets {
    enclosing: Option<(usize, usize)>,
    labeled: Vec<(LoopId, usize)>,
}

/// The headers of labelled loops, the innermost last.
pub open spec fn label_map(labeled: Seq<(LoopId, usize)>) -> Map<LoopId, usize>
    decreases labeled.len(),
{
    if labeled.len() == 0 {
        Map::empty()
    } else {
        label_map(labeled.drop_last()).insert(labeled.last().0, labeled.last().1)
    }
}

impl LoopTargets {
    spec fn model(self) -> Targets {
        Targets { enclosing: self.enclosing, labeled: label_map(self.labeled@) }
    }

    spec fn within(self, count: int) -> bool {
        &&& self.enclosing matches Some((after, header)) ==> after < count && header < count
        &&& forall|k: int| 0 <= k < self.labeled@.len() ==> (#[trigger] self.labeled@[k]).1 < count
    }

    fn header(&self, label: LoopId) -> (res: Option<usize>)
        ensures
            match res {
                Some(header) => label_map(self.labeled@).dom().contains(label) && label_map(
                    self.labeled@,
                )[label] == header && exists|k: int|
                    0 <= k < self.labeled@.len() && (#[trigger] self.labeled@[k]).1 == header,
                None => !label_map(self.labeled@).dom().contains(label),
            },
    {
        let ghost all = label_map(self.labeled@);
        let mut i: usize = self.labeled.len();
        assert(self.labeled@.subrange(0, i as int) =~= self.labeled@);
        while i > 0
            invariant
                i <= self.labeled@.len(),
                all == label_map(self.labeled@),
                all.dom().contains(label) == label_map(
                    self.labeled@.subrange(0, i as int),
                ).dom().contains(label),
                all.dom().contains(label) ==> all[label] == label_map(
                    self.labeled@.subrange(0, i as int),
                )[label],
            decreases i,
        {
            let ghost prefix = self.labeled@.subrange(0, i as int);
            assert(prefix.drop_last() =~= self.labeled@.subrange(0, i - 1));
            i = i - 1;
            if self.labeled[i].0 == label {
                assert(self.labeled@[i as int].1 == self.labeled@[i as int].1);
                return Some(self.labeled[i].1);
            }
        }
        None
    }

    fn nested(&self, after: usize, header: usize, label: Option<LoopId>) -> (res: LoopTargets)
        ensures
            res.model() == nested_targets(self.model(), after, header, label),
            forall|count: int|
                self.within(count) && after < count && header < count ==> #[trigger] res.within(
                    count,
                ),
    {
        let mut labeled: Vec<(LoopId, usize)> = Vec::new();
        let mut i: usize = 0;
        while i < self.labeled.len()
            invariant
                i <= self.labeled@.len(),
                labeled@ == self.labeled@.subrange(0, i as int),
            decreases self.labeled@.len() - i,
        {
            labeled.push(self.labeled[i]);
            i = i + 1;
            assert(labeled@ =~= self.labeled@.subrange(0, i as int));
        }
        assert(labeled@ =~= self.labeled@);
        if let Some(label) = label {
            labeled.push((label, header));
            assert(labeled@.drop_last() =~= self.labeled@);
        }
        LoopTargets { enclosing: Some((after, header)), labeled }
    }
}

pub open spec fn nested_targets(
    loops: Targets,
    after: usize,
    header: usize,
    label: Option<LoopId>,
) -> Targets {
    Targets {
        enclosing: Some((after, header)),
        labeled: match label {
            Some(label) => loops.labeled.insert(label, header),
            None => loops.labeled,
        },
    }
}

/// The nodes with those of an instruction that is followed by `next`, and where
/// the instruction starts. There are none for a break or continue without its
/// loop, a call that still has arguments, or a call of none of `count` functions.
pub open spec fn built_inst(
    offset: usize,
    instr: InstModel,
    next: usize,
    loops: Targets,
    count: usize,
    nodes: Seq<NodeModel>,
) -> Option<(Seq<NodeModel>, usize)>
    decreases instr,
{
    match instr {
        InstModel::If { condition, then_branch, else_branch } => match built_list(
            offset,
            then_branch,
            next,
            loops,
            count,
            nodes,
        ) {
            None => None,
            Some((nodes, then_node)) => match built_list(
                offset,
                else_branch,
                next,
                loops,
                count,
                nodes,
            ) {
                None => None,
                Some((nodes, else_node)) => Some(
                    (
                        nodes.push(
                            NodeModel {
                                offset,
                                body: Seq::empty(),
                                transfer: TransferModel::Branch {
                                    condition,
                                    then_node,
                                    else_node,
                                },
                            },
                        ),
                        nodes.len() as usize,
                    ),
                ),
            },
        },
        InstModel::Loop { label, entry_offset, body } => {
            let header = nodes.len() as usize;
            let with_header = nodes.push(
                NodeModel {
                    offset: entry_offset,
                    body: Seq::empty(),
                    transfer: TransferModel::Goto(next),
                },
            );
            match built_body(
                body,
                header,
                nested_targets(loops, next, header, label),
                count,
                with_header,
            ) {
                None => None,
                Some((nodes, start)) => Some(
                    (
                        nodes.update(
                            header as int,
                            NodeModel {
                                transfer: TransferModel::Goto(start),
                                ..nodes[header as int]
                            },
                        ),
                        header,
                    ),
                ),
            }
        },
        InstModel::Break => match loops.enclosing {
            Some((after, _)) => Some((nodes, after)),
            None => None,
        },
        InstModel::Continue => match loops.enclosing {
            Some((_, header)) => Some((nodes, header)),
            None => None,
        },
        InstModel::ContinueLoop(label) => if loops.labeled.dom().contains(label) {
            Some((nodes, loops.labeled[label]))
        } else {
            None
        },
        InstModel::CallSynthetic { function, arguments } => if arguments.len() == 0 && function.id
            < count {
            Some((nodes, function.id))
        } else {
            None
        },
        InstModel::Return(_) | InstModel::Jump(_) | InstModel::End => Some(
            (
                nodes.push(
                    NodeModel {
                        offset,
                        body: Seq::empty(),
                        transfer: TransferModel::Exit(instr),
                    },
                ),
                nodes.len() as usize,
            ),
        ),
        _ => Some(
            (
                nodes.push(
                    NodeModel {
                        offset,
                        body: seq![(offset, instr)],
                        transfer: TransferModel::Goto(next),
                    },
                ),
                nodes.len() as usize,
            ),
        ),
    }
}

pub open spec fn built_list(
    offset: usize,
    list: Seq<InstModel>,
    next: usize,
    loops: Targets,
    count: usize,
    nodes: Seq<NodeModel>,
) -> Option<(Seq<NodeModel>, usize)>
    decreases list,
{
    if list.len() == 0 {
        Some((nodes, next))
    } else {
        match built_inst(offset, list[list.len() - 1], next, loops, count, nodes) {
            Some((nodes, next)) => built_list(
                offset,
                list.drop_last(),
                next,
                loops,
                count,
                nodes,
            ),
            None => None,
        }
    }
}

pub open spec fn built_body(
    list: Seq<(usize, InstModel)>,
    next: usize,
    loops: Targets,
    count: usize,
    nodes: Seq<NodeModel>,
) -> Option<(Seq<NodeModel>, usize)>
    decreases list,
{
    if list.len() == 0 {
        Some((nodes, next))
    } else {
        match built_inst(
            list[list.len() - 1].0,
            list[list.len() - 1].1,
            next,
            loops,
            count,
            nodes,
        ) {
            Some((nodes, next)) => built_body(list.drop_last(), next, loops, count, nodes),
            None => None,
        }
    }
}

fn push_node(
    nodes: &mut Vec<Node>,
    offset: usize,
    body: Vec<(usize, IRInst)>,
    transfer: Transfer,
) -> (res: usize)
    requires
        closed(node_models(old(nodes)@)),
        transfer.model().stays_within(old(nodes)@.len() as int + 1),
    ensures
        res == old(nodes)@.len(),
        final(nodes)@.len() == old(nodes)@.len() + 1,
        node_models(final(nodes)@) == node_models(old(nodes)@).push(
            NodeModel { offset, body: body_models(body@), transfer: transfer.model() },
        ),
        closed(node_models(final(nodes)@)),
{
    let ghost before = node_models(nodes@);
    let id: usize = nodes.len();
    nodes.push(Node { offset, body, transfer });
    proof {
        let after = node_models(nodes@);
        assert(after =~= before.push(nodes@.last().model()));
        assert forall|i: int| 0 <= i < after.len() implies (
        #[trigger] after[i]).transfer.stays_within(after.len() as int) by {
            if i < before.len() {
                assert(before[i].transfer.stays_within(before.len() as int));
            }
        }
    }
    id
}

/// What building keeps: the nodes stay closed, none are lost, and the start is
/// one of them.
spec fn is_built(before: Seq<Node>, after: Seq<Node>, start: Option<usize>) -> bool {
    &&& before.len() <= after.len()
    &&& closed(node_models(after))
    &&& start matches Some(id) ==> id < after.len()
}

spec fn same_build(
    after: Seq<Node>,
    start: Option<usize>,
    model: Option<(Seq<NodeModel>, usize)>,
) -> bool {
    match start {
        Some(id) => model == Some((node_models(after), id)),
        None => model is None,
    }
}

#[verifier::rlimit(40)]
fn instruction(
    nodes: &mut Vec<Node>,
    offset: usize,
    instr: &IRInst,
    next: usize,
    loops: &LoopTargets,
    count: usize,
) -> (res: Option<usize>)
    requires
        closed(node_models(old(nodes)@)),
        next < old(nodes)@.len(),
        count <= old(nodes)@.len(),
        loops.within(old(nodes)@.len() as int),
    ensures
        is_built(old(nodes)@, final(nodes)@, res),
        same_build(
            final(nodes)@,
            res,
            built_inst(
                offset,
                instr.model(),
                next,
                loops.model(),
                count,
                node_models(old(nodes)@),
            ),
        ),
    decreases instr,
{
    let ghost start = node_models(nodes@);
    match instr {
        IRInst::If { condition, then_branch, else_branch } => {
            let then_node: usize = match sequence_list(
                nodes,
                offset,
                then_branch,
                next,
                loops,
                count,
            ) {
                Some(node) => node,
                None => return None,
            };
            let else_node: usize = match sequence_list(
                nodes,
                offset,
                else_branch,
                next,
                loops,
                count,
            ) {
                Some(node) => node,
                None => return None,
            };
            let body: Vec<(usize, IRInst)> = Vec::new();
            assert(body_models(body@) =~= Seq::<(usize, InstModel)>::empty());
            Some(
                push_node(
                    nodes,
                    offset,
                    body,
                    Transfer::Branch { condition: condition.clone(), then_node, else_node },
                ),
            )
        },
        IRInst::Loop { label, entry_offset, body } => {
            let empty: Vec<(usize, IRInst)> = Vec::new();
            assert(body_models(empty@) =~= Seq::<(usize, InstModel)>::empty());
            let header: usize = push_node(nodes, *entry_offset, empty, Transfer::Goto(next));
            let ghost with_header = node_models(nodes@);
            let nested: LoopTargets = loops.nested(next, header, *label);
            // Falling through a loop body repeats it as well.
            let entry: usize = match sequence(nodes, body, header, &nested, count) {
                Some(node) => node,
                None => return None,
            };
            let ghost made = node_models(nodes@);
            nodes[header].transfer = Transfer::Goto(entry);
            proof {
                let after = node_models(nodes@);
                assert(after =~= made.update(
                    header as int,
                    NodeModel { transfer: TransferModel::Goto(entry), ..made[header as int] },
                ));
                assert forall|i: int| 0 <= i < after.len() implies (
                #[trigger] after[i]).transfer.stays_within(after.len() as int) by {
                    assert(made[i].transfer.stays_within(made.len() as int));
                }
            }
            Some(header)
        },
        IRInst::Break => match loops.enclosing {
            Some((after, _)) => Some(after),
            None => None,
        },
        IRInst::Continue => match loops.enclosing {
            Some((_, header)) => Some(header),
            None => None,
        },
        IRInst::ContinueLoop(label) => loops.header(*label),
        IRInst::CallSynthetic { function, arguments } => {
            // Function entry nodes occupy the first slots. Argument assignments
            // have already been materialized by the inliner.
            if arguments.len() == 0 && function.id < count {
                Some(function.id)
            } else {
                None
            }
        },
        IRInst::Return(_) | IRInst::Jump(_) | IRInst::End => {
            let body: Vec<(usize, IRInst)> = Vec::new();
            assert(body_models(body@) =~= Seq::<(usize, InstModel)>::empty());
            Some(push_node(nodes, offset, body, Transfer::Exit(instr.clone())))
        },
        _ => {
            let mut body: Vec<(usize, IRInst)> = Vec::new();
            body.push((offset, instr.clone()));
            assert(body_models(body@) =~= seq![(offset, instr.model())]);
            Some(push_node(nodes, offset, body, Transfer::Goto(next)))
        },
    }
}

fn sequence_list(
    nodes: &mut Vec<Node>,
    offset: usize,
    list: &Vec<IRInst>,
    next: usize,
    loops: &LoopTargets,
    count: usize,
) -> (res: Option<usize>)
    requires
        closed(node_models(old(nodes)@)),
        next < old(nodes)@.len(),
        count <= old(nodes)@.len(),
        loops.within(old(nodes)@.len() as int),
    ensures
        is_built(old(nodes)@, final(nodes)@, res),
        same_build(
            final(nodes)@,
            res,
            built_list(
                offset,
                models(list@),
                next,
                loops.model(),
                count,
                node_models(old(nodes)@),
            ),
        ),
    decreases list,
{
    let ghost all = models(list@);
    let ghost start = node_models(nodes@);
    let ghost before = nodes@;
    let ghost goal = built_list(offset, all, next, loops.model(), count, start);
    let mut current: usize = next;
    let mut i: usize = list.len();
    assert(all.subrange(0, i as int) =~= all);
    while i > 0
        invariant
            i <= list@.len(),
            all == models(list@),
            closed(node_models(nodes@)),
            before.len() <= nodes@.len(),
            current < nodes@.len(),
            count <= before.len(),
            loops.within(before.len() as int),
            start == node_models(before),
            before == old(nodes)@,
            goal == built_list(offset, all, next, loops.model(), count, start),
            goal == built_list(
                offset,
                all.subrange(0, i as int),
                current,
                loops.model(),
                count,
                node_models(nodes@),
            ),
        decreases i,
    {
        let ghost prefix = all.subrange(0, i as int);
        assert(prefix.drop_last() =~= all.subrange(0, i - 1));
        i = i - 1;
        assert(decreases_to!(list => list@[i as int]));
        assert(loops.within(nodes@.len() as int)) by {
            assert forall|k: int| 0 <= k < loops.labeled@.len() implies (
            #[trigger] loops.labeled@[k]).1 < nodes@.len() by {}
        }
        current = match instruction(nodes, offset, &list[i], current, loops, count) {
            Some(node) => node,
            None => return None,
        };
    }
    assert(all.subrange(0, 0) =~= Seq::empty());
    Some(current)
}

fn sequence(
    nodes: &mut Vec<Node>,
    list: &Vec<(usize, IRInst)>,
    next: usize,
    loops: &LoopTargets,
    count: usize,
) -> (res: Option<usize>)
    requires
        closed(node_models(old(nodes)@)),
        next < old(nodes)@.len(),
        count <= old(nodes)@.len(),
        loops.within(old(nodes)@.len() as int),
    ensures
        is_built(old(nodes)@, final(nodes)@, res),
        same_build(
            final(nodes)@,
            res,
            built_body(
                body_models(list@),
                next,
                loops.model(),
                count,
                node_models(old(nodes)@),
            ),
        ),
    decreases list,
{
    let ghost all = body_models(list@);
    let ghost start = node_models(nodes@);
    let ghost before = nodes@;
    let ghost goal = built_body(all, next, loops.model(), count, start);
    let mut current: usize = next;
    let mut i: usize = list.len();
    assert(all.subrange(0, i as int) =~= all);
    while i > 0
        invariant
            i <= list@.len(),
            all == body_models(list@),
            closed(node_models(nodes@)),
            before.len() <= nodes@.len(),
            current < nodes@.len(),
            count <= before.len(),
            loops.within(before.len() as int),
            start == node_models(before),
            before == old(nodes)@,
            goal == built_body(all, next, loops.model(), count, start),
            goal == built_body(
                all.subrange(0, i as int),
                current,
                loops.model(),
                count,
                node_models(nodes@),
            ),
        decreases i,
    {
        let ghost prefix = all.subrange(0, i as int);
        assert(prefix.drop_last() =~= all.subrange(0, i - 1));
        i = i - 1;
        assert(decreases_to!(list => list@[i as int]));
        assert(loops.within(nodes@.len() as int)) by {
            assert forall|k: int| 0 <= k < loops.labeled@.len() implies (
            #[trigger] loops.labeled@[k]).1 < nodes@.len() by {}
        }
        current = match instruction(nodes, list[i].0, &list[i].1, current, loops, count) {
            Some(node) => node,
            None => return None,
        };
    }
    assert(all.subrange(0, 0) =~= Seq::empty());
    Some(current)
}

pub open spec fn no_targets() -> Targets {
    Targets { enclosing: None, labeled: Map::empty() }
}

/// A node that ends at once.
pub open spec fn end_node(offset: usize) -> NodeModel {
    NodeModel { offset, body: Seq::empty(), transfer: TransferModel::Exit(InstModel::End) }
}

/// The nodes with those of the first `done` functions.
pub open spec fn built_functions(functions: Seq<FunctionModel>, done: int) -> Option<Seq<NodeModel>>
    decreases done,
{
    if done <= 0 {
        Some(functions.map_values(|f: FunctionModel| end_node(f.entry_offset)))
    } else {
        match built_functions(functions, done - 1) {
            None => None,
            Some(nodes) => {
                let function = functions[done - 1];
                let end = nodes.len() as usize;
                match built_body(
                    function.body,
                    end,
                    no_targets(),
                    functions.len() as usize,
                    nodes.push(end_node(function.entry_offset)),
                ) {
                    None => None,
                    Some((nodes, start)) => Some(
                        nodes.update(
                            done - 1,
                            NodeModel {
                                transfer: TransferModel::Goto(start),
                                ..nodes[done - 1]
                            },
                        ),
                    ),
                }
            },
        }
    }
}

/// The graph of a program. The first nodes are the entries of its functions.
pub open spec fn built(functions: Seq<FunctionModel>) -> Option<Seq<NodeModel>> {
    built_functions(functions, functions.len() as int)
}

proof fn lemma_building_stops(functions: Seq<FunctionModel>, done: int, all: int)
    requires
        done <= all,
        built_functions(functions, done) is None,
    ensures
        built_functions(functions, all) is None,
    decreases all - done,
{
    if done < all {
        lemma_building_stops(functions, done, all - 1);
        if done <= 0 {
            assert(false);
        }
    }
}

fn put_function(
    nodes: &mut Vec<Node>,
    function: &SyntheticFunction,
    id: usize,
    count: usize,
) -> (res: bool)
    requires
        closed(node_models(old(nodes)@)),
        id < count <= old(nodes)@.len(),
    ensures
        res ==> final(nodes)@.len() >= old(nodes)@.len() && closed(node_models(final(nodes)@)),
        ({
            let before = node_models(old(nodes)@);
            let model = built_body(
                function.model().body,
                before.len() as usize,
                no_targets(),
                count,
                before.push(end_node(function.entry_offset)),
            );
            &&& res == (model is Some)
            &&& model matches Some((made, start)) ==> node_models(final(nodes)@) == made.update(
                id as int,
                NodeModel { transfer: TransferModel::Goto(start), ..made[id as int] },
            )
        }),
{
    let loops: LoopTargets = LoopTargets { enclosing: None, labeled: Vec::new() };
    assert(loops.model().labeled =~= Map::<LoopId, usize>::empty());
    assert(loops.model() == no_targets());
    let body: Vec<(usize, IRInst)> = Vec::new();
    assert(body_models(body@) =~= Seq::<(usize, InstModel)>::empty());
    let end: usize = push_node(nodes, function.entry_offset, body, Transfer::Exit(IRInst::End));
    let start: usize = match sequence(nodes, &function.body, end, &loops, count) {
        Some(start) => start,
        None => return false,
    };
    let ghost made = node_models(nodes@);
    nodes[id].transfer = Transfer::Goto(start);
    proof {
        let after = node_models(nodes@);
        assert(after =~= made.update(
            id as int,
            NodeModel { transfer: TransferModel::Goto(start), ..made[id as int] },
        ));
        assert forall|i: int| 0 <= i < after.len() implies (
        #[trigger] after[i]).transfer.stays_within(after.len() as int) by {
            assert(made[i].transfer.stays_within(made.len() as int));
        }
    }
    true
}

/// The graph of a program, unless a transfer has no target.
pub fn build(functions: &Vec<SyntheticFunction>) -> (res: Option<Vec<Node>>)
    ensures
        match res {
            Some(nodes) => built(function_models(functions@)) == Some(node_models(nodes@))
                && closed(node_models(nodes@)) && nodes@.len() >= functions@.len(),
            None => built(function_models(functions@)) is None,
        },
{
    let ghost all = function_models(functions@);
    let mut nodes: Vec<Node> = Vec::new();
    let mut i: usize = 0;
    while i < functions.len()
        invariant
            i <= functions@.len(),
            all == function_models(functions@),
            nodes@.len() == i,
            closed(node_models(nodes@)),
            node_models(nodes@) == all.subrange(0, i as int).map_values(
                |f: FunctionModel| end_node(f.entry_offset),
            ),
        decreases functions@.len() - i,
    {
        let body: Vec<(usize, IRInst)> = Vec::new();
        assert(body_models(body@) =~= Seq::<(usize, InstModel)>::empty());
        push_node(&mut nodes, functions[i].entry_offset, body, Transfer::Exit(IRInst::End));
        i = i + 1;
        assert(node_models(nodes@) =~= all.subrange(0, i as int).map_values(
            |f: FunctionModel| end_node(f.entry_offset),
        ));
    }
    assert(all.subrange(0, i as int) =~= all);
    let count: usize = functions.len();
    let mut id: usize = 0;
    while id < functions.len()
        invariant
            id <= functions@.len(),
            count == functions@.len(),
            all == function_models(functions@),
            nodes@.len() >= count,
            closed(node_models(nodes@)),
            built_functions(all, id as int) == Some(node_models(nodes@)),
        decreases functions@.len() - id,
    {
        assert(all[id as int] == functions@[id as int].model());
        if !put_function(&mut nodes, &functions[id], id, count) {
            proof {
                lemma_building_stops(all, id + 1, count as int);
            }
            return None;
        }
        id = id + 1;
    }
    Some(nodes)
}

// ---------------------------------------------------------------------------
// Reachability

/// The nodes that control can reach from the entry over at most `steps` edges.
pub open spec fn reached_within(nodes: Seq<NodeModel>, entry: int, steps: nat) -> Set<int>
    decreases steps,
{
    if steps == 0 {
        Set::empty().insert(entry)
    } else {
        let before = reached_within(nodes, entry, (steps - 1) as nat);
        Set::new(
            |n: int|
                before.contains(n) || exists|m: int|
                    before.contains(m) && 0 <= m < nodes.len() && (
                    #[trigger] nodes[m]).transfer.leads_to(n),
        )
    }
}

/// Whether control can reach a node from the entry.
pub open spec fn is_reachable(nodes: Seq<NodeModel>, entry: int, node: int) -> bool {
    exists|steps: nat| #[trigger] reached_within(nodes, entry, steps).contains(node)
}

proof fn lemma_entry_is_reachable(nodes: Seq<NodeModel>, entry: int)
    ensures
        is_reachable(nodes, entry, entry),
{
    assert(reached_within(nodes, entry, 0).contains(entry));
}

proof fn lemma_successor_is_reachable(nodes: Seq<NodeModel>, entry: int, from: int, to: int)
    requires
        is_reachable(nodes, entry, from),
        0 <= from < nodes.len(),
        nodes[from].transfer.leads_to(to),
    ensures
        is_reachable(nodes, entry, to),
{
    let steps = choose|steps: nat| #[trigger] reached_within(nodes, entry, steps).contains(from);
    assert(reached_within(nodes, entry, steps + 1).contains(to));
}

/// A set that holds the entry and every successor of its nodes holds everything
/// that can be reached.
proof fn lemma_closed_set_holds_reachable(
    nodes: Seq<NodeModel>,
    entry: int,
    set: Set<int>,
    steps: nat,
)
    requires
        set.contains(entry),
        forall|m: int, n: int|
            set.contains(m) && 0 <= m < nodes.len() && #[trigger] nodes[m].transfer.leads_to(n)
                ==> set.contains(n),
    ensures
        reached_within(nodes, entry, steps).subset_of(set),
    decreases steps,
{
    if steps > 0 {
        lemma_closed_set_holds_reachable(nodes, entry, set, (steps - 1) as nat);
    }
}

spec fn unmarked(marks: Seq<bool>) -> nat
    decreases marks.len(),
{
    if marks.len() == 0 {
        0
    } else {
        unmarked(marks.drop_last()) + if marks.last() {
            0nat
        } else {
            1nat
        }
    }
}

proof fn lemma_mark(marks: Seq<bool>, at: int)
    requires
        0 <= at < marks.len(),
        !marks[at],
    ensures
        unmarked(marks.update(at, true)) + 1 == unmarked(marks),
    decreases marks.len(),
{
    let after = marks.update(at, true);
    if at < marks.len() - 1 {
        lemma_mark(marks.drop_last(), at);
        assert(after.drop_last() =~= marks.drop_last().update(at, true));
    } else {
        assert(after.drop_last() =~= marks.drop_last());
    }
}

/// Marks the nodes that control can reach from the entry.
pub fn reachable(nodes: &Vec<Node>, entry: usize) -> (res: Vec<bool>)
    requires
        closed(node_models(nodes@)),
        entry < nodes@.len(),
    ensures
        res@.len() == nodes@.len(),
        forall|n: int|
            0 <= n < nodes@.len() ==> #[trigger] res@[n] == is_reachable(
                node_models(nodes@),
                entry as int,
                n,
            ),
{
    let ghost all = node_models(nodes@);
    let mut found: Vec<bool> = Vec::new();
    let mut i: usize = 0;
    while i < nodes.len()
        invariant
            i <= nodes@.len(),
            found@.len() == i,
            forall|k: int| 0 <= k < i ==> !#[trigger] found@[k],
        decreases nodes@.len() - i,
    {
        found.push(false);
        i = i + 1;
    }
    let mut pending: Vec<usize> = Vec::new();
    pending.push(entry);
    proof {
        lemma_entry_is_reachable(all, entry as int);
        assert(pending@[0] == entry);
        assert(pending@.contains(entry));
    }
    while pending.len() > 0
        invariant
            all == node_models(nodes@),
            closed(all),
            entry < nodes@.len(),
            found@.len() == nodes@.len(),
            forall|k: int|
                0 <= k < pending@.len() ==> (#[trigger] pending@[k]) < nodes@.len()
                    && is_reachable(all, entry as int, pending@[k] as int),
            forall|k: int|
                0 <= k < found@.len() && #[trigger] found@[k] ==> is_reachable(
                    all,
                    entry as int,
                    k,
                ),
            found@[entry as int] || pending@.contains(entry),
            forall|m: int, n: usize|
                0 <= m < found@.len() && #[trigger] found@[m] && #[trigger] all[m].transfer.leads_to(
                    n as int,
                ) ==> found@[n as int] || pending@.contains(n),
        decreases 3 * unmarked(found@) + pending@.len(),
    {
        let ghost waiting = pending@;
        let ghost known = found@;
        let node: usize = match pending.pop() {
            Some(node) => node,
            None => return found,
        };
        proof {
            assert(waiting.last() == node);
            assert forall|n: usize| waiting.contains(
                n,
            ) && n != node implies #[trigger] pending@.contains(
            n) by {
                let k = choose|k: int| 0 <= k < waiting.len() && waiting[k] == n;
                assert(pending@[k] == n);
            }
        }
        if !found[node] {
            proof {
                lemma_mark(found@, node as int);
            }
            found.set(node, true);
            let mut successors: Vec<usize> = nodes[node].successors();
            let ghost next = successors@;
            let ghost rest = pending@;
            assert(all[node as int] == nodes@[node as int].model());
            pending.append(&mut successors);
            proof {
                assert forall|n: usize| rest.contains(
                    n,
                ) implies #[trigger] pending@.contains(n) by {
                    let k = choose|k: int| 0 <= k < rest.len() && rest[k] == n;
                    assert(pending@[k] == n);
                }
                assert forall|n: usize| next.contains(
                    n,
                ) implies #[trigger] pending@.contains(n) by {
                    let k = choose|k: int| 0 <= k < next.len() && next[k] == n;
                    assert(pending@[rest.len() + k] == n);
                }
                assert forall|k: int| 0 <= k < pending@.len() implies (#[trigger] pending@[k])
                    < nodes@.len() && is_reachable(all, entry as int, pending@[k] as int) by {
                    if k < rest.len() {
                        assert(pending@[k] == waiting[k]);
                    } else {
                        let n = next[k - rest.len()];
                        assert(next.contains(n));
                        assert(all[node as int].transfer.stays_within(all.len() as int));
                        lemma_successor_is_reachable(
                            all,
                            entry as int,
                            node as int,
                            n as int,
                        );
                    }
                }
                assert forall|m: int, n: usize|
                    0 <= m < found@.len() && #[trigger] found@[m]
                        && #[trigger] all[m].transfer.leads_to(
                        n as int,
                    ) implies found@[n as int] || pending@.contains(n) by {
                    if m == node {
                        assert(next.contains(n));
                    } else {
                        assert(known[m]);
                        assert(known[n as int] || waiting.contains(n));
                    }
                }
            }
        } else {
            proof {
                assert forall|m: int, n: usize|
                    0 <= m < found@.len() && #[trigger] found@[m]
                        && #[trigger] all[m].transfer.leads_to(
                        n as int,
                    ) implies found@[n as int] || pending@.contains(n) by {
                    assert(known[n as int] || waiting.contains(n));
                }
            }
        }
    }
    proof {
        let set = Set::new(|n: int| 0 <= n < found@.len() && found@[n]);
        assert forall|m: int, n: int|
            set.contains(m) && 0 <= m < all.len() && #[trigger] all[m].transfer.leads_to(
                n,
            ) implies set.contains(n) by {
            assert(all[m].transfer.stays_within(all.len() as int));
            assert(all[m].transfer.leads_to((n as usize) as int));
            assert(found@[m]);
        }
        assert forall|n: int| 0 <= n < nodes@.len() implies #[trigger] found@[n] == is_reachable(
            all,
            entry as int,
            n,
        ) by {
            if is_reachable(all, entry as int, n) {
                let steps = choose|steps: nat| #[trigger]
                    reached_within(all, entry as int, steps).contains(n);
                lemma_closed_set_holds_reachable(all, entry as int, set, steps);
                assert(set.contains(n));
            }
        }
    }
    found
}

// ---------------------------------------------------------------------------
// Absorbing blocks

/// How many of the first `count` nodes can be reached and lead to the target.
pub open spec fn edges_into(
    nodes: Seq<NodeModel>,
    entry: int,
    target: int,
    count: int,
) -> nat
    decreases count,
{
    if count <= 0 {
        0
    } else {
        edges_into(nodes, entry, target, count - 1) + if is_reachable(nodes, entry, count - 1)
            && nodes[count - 1].transfer.leads_to(target) {
            1nat
        } else {
            0nat
        }
    }
}

proof fn lemma_one_edge(nodes: Seq<NodeModel>, entry: int, target: int, from: int, count: int)
    requires
        0 <= from < count,
        is_reachable(nodes, entry, from),
        nodes[from].transfer.leads_to(target),
    ensures
        edges_into(nodes, entry, target, count) >= 1,
    decreases count,
{
    if from < count - 1 {
        lemma_one_edge(nodes, entry, target, from, count - 1);
    }
}

proof fn lemma_two_edges(
    nodes: Seq<NodeModel>,
    entry: int,
    target: int,
    a: int,
    b: int,
    count: int,
)
    requires
        0 <= a < count,
        0 <= b < count,
        a != b,
        is_reachable(nodes, entry, a),
        nodes[a].transfer.leads_to(target),
        is_reachable(nodes, entry, b),
        nodes[b].transfer.leads_to(target),
    ensures
        edges_into(nodes, entry, target, count) >= 2,
    decreases count,
{
    if a == count - 1 {
        lemma_one_edge(nodes, entry, target, b, count - 1);
    } else if b == count - 1 {
        lemma_one_edge(nodes, entry, target, a, count - 1);
    } else {
        lemma_two_edges(nodes, entry, target, a, b, count - 1);
    }
}

/// The graph after one change at a node: a branch on a constant is decided, or a
/// block with just one incoming edge is absorbed.
pub open spec fn absorbed_at(nodes: Seq<NodeModel>, entry: int, id: int) -> Option<Seq<NodeModel>> {
    let node = nodes[id];
    if !is_reachable(nodes, entry, id) {
        None
    } else {
        match node.transfer {
            TransferModel::Branch { condition, then_node, else_node } => match condition {
                IRExpr::Bool(value) => Some(
                    nodes.update(
                        id,
                        NodeModel {
                            transfer: TransferModel::Goto(
                                if value {
                                    then_node
                                } else {
                                    else_node
                                },
                            ),
                            ..node
                        },
                    ),
                ),
                _ => None,
            },
            TransferModel::Goto(target) => if target == id || target == entry || edges_into(
                nodes,
                entry,
                target as int,
                nodes.len() as int,
            ) != 1 {
                None
            } else {
                let successor = nodes[target as int];
                Some(
                    nodes.update(
                        id,
                        NodeModel {
                            offset: successor.offset,
                            body: node.body + successor.body,
                            transfer: successor.transfer,
                        },
                    ),
                )
            },
            TransferModel::Exit(_) => None,
        }
    }
}

/// The graph after the change at the first node, from a position on, that has one.
pub open spec fn absorbed_from(nodes: Seq<NodeModel>, entry: int, from: int) -> Option<
    Seq<NodeModel>,
>
    decreases nodes.len() - from,
{
    if from < 0 || from >= nodes.len() {
        None
    } else {
        match absorbed_at(nodes, entry, from) {
            Some(after) => Some(after),
            None => absorbed_from(nodes, entry, from + 1),
        }
    }
}

/// The graph after `steps` changes, or as many as there are.
pub open spec fn absorbed(nodes: Seq<NodeModel>, entry: int, steps: nat) -> Seq<NodeModel>
    decreases steps,
{
    if steps == 0 {
        nodes
    } else {
        let before = absorbed(nodes, entry, (steps - 1) as nat);
        match absorbed_from(before, entry, 0) {
            Some(after) => after,
            None => before,
        }
    }
}

pub open spec fn is_linear(nodes: Seq<NodeModel>, entry: int, result: Seq<NodeModel>) -> bool {
    &&& absorbed_from(result, entry, 0) is None
    &&& exists|steps: nat| #[trigger] absorbed(nodes, entry, steps) == result
}

/// The graph after every change.
pub open spec fn linear(nodes: Seq<NodeModel>, entry: int) -> Seq<NodeModel> {
    choose|result: Seq<NodeModel>| is_linear(nodes, entry, result)
}

proof fn lemma_linear_stays(nodes: Seq<NodeModel>, entry: int, steps: nat, later: nat)
    requires
        steps <= later,
        absorbed_from(absorbed(nodes, entry, steps), entry, 0) is None,
    ensures
        absorbed(nodes, entry, later) == absorbed(nodes, entry, steps),
    decreases later,
{
    if steps < later {
        lemma_linear_stays(nodes, entry, steps, (later - 1) as nat);
    }
}

/// There is only one graph after every change.
pub proof fn law_linear_is_unique(
    nodes: Seq<NodeModel>,
    entry: int,
    a: Seq<NodeModel>,
    b: Seq<NodeModel>,
)
    requires
        is_linear(nodes, entry, a),
        is_linear(nodes, entry, b),
    ensures
        a == b,
{
    let n = choose|steps: nat| #[trigger] absorbed(nodes, entry, steps) == a;
    let m = choose|steps: nat| #[trigger] absorbed(nodes, entry, steps) == b;
    if n <= m {
        lemma_linear_stays(nodes, entry, n, m);
    } else {
        lemma_linear_stays(nodes, entry, m, n);
    }
}

/// Which nodes can be reached.
pub open spec fn marks_of(nodes: Seq<NodeModel>, entry: int) -> Seq<bool> {
    Seq::new(nodes.len(), |n: int| is_reachable(nodes, entry, n))
}

proof fn lemma_fewer_marks(low: Seq<bool>, high: Seq<bool>)
    requires
        low.len() == high.len(),
        forall|i: int| 0 <= i < low.len() && #[trigger] low[i] ==> high[i],
    ensures
        unmarked(high) <= unmarked(low) <= low.len(),
        low != high ==> unmarked(high) < unmarked(low),
    decreases low.len(),
{
    if low.len() > 0 {
        let a = low.drop_last();
        let b = high.drop_last();
        assert forall|i: int| 0 <= i < a.len() && #[trigger] a[i] implies b[i] by {
            assert(low[i]);
        }
        lemma_fewer_marks(a, b);
        if low.last() {
            assert(low[low.len() - 1]);
        }
        if low.last() == high.last() && a == b {
            assert(low =~= a.push(low.last()));
            assert(high =~= b.push(high.last()));
        }
    } else {
        assert(low =~= high);
    }
}

pub open spec fn is_constant_branch(node: NodeModel) -> bool {
    node.transfer matches TransferModel::Branch { condition, .. } && condition is Bool
}

spec fn constant_branches(nodes: Seq<NodeModel>) -> nat
    decreases nodes.len(),
{
    if nodes.len() == 0 {
        0
    } else {
        constant_branches(nodes.drop_last()) + if is_constant_branch(nodes.last()) {
            1nat
        } else {
            0nat
        }
    }
}

proof fn lemma_decided(nodes: Seq<NodeModel>, id: int, node: NodeModel)
    requires
        0 <= id < nodes.len(),
        is_constant_branch(nodes[id]),
        !is_constant_branch(node),
    ensures
        constant_branches(nodes.update(id, node)) + 1 == constant_branches(nodes),
    decreases nodes.len(),
{
    let after = nodes.update(id, node);
    if id < nodes.len() - 1 {
        lemma_decided(nodes.drop_last(), id, node);
        assert(after.drop_last() =~= nodes.drop_last().update(id, node));
    } else {
        assert(after.drop_last() =~= nodes.drop_last());
    }
}

/// Deciding a branch makes nothing new reachable.
proof fn lemma_deciding_reaches_no_more(
    nodes: Seq<NodeModel>,
    after: Seq<NodeModel>,
    entry: int,
)
    requires
        nodes.len() == after.len(),
        forall|m: int, n: int|
            0 <= m < nodes.len() && #[trigger] after[m].transfer.leads_to(n)
                ==> nodes[m].transfer.leads_to(n),
    ensures
        forall|n: int| #[trigger] is_reachable(after, entry, n) ==> is_reachable(nodes, entry, n),
{
    let set = Set::new(|n: int| is_reachable(nodes, entry, n));
    lemma_entry_is_reachable(nodes, entry);
    assert forall|m: int, n: int|
        set.contains(m) && 0 <= m < after.len() && #[trigger] after[m].transfer.leads_to(
            n,
        ) implies set.contains(n) by {
        lemma_successor_is_reachable(nodes, entry, m, n);
    }
    assert forall|n: int| #[trigger] is_reachable(after, entry, n) implies is_reachable(
        nodes,
        entry,
        n,
    ) by {
        let steps = choose|steps: nat| #[trigger] reached_within(after, entry, steps).contains(n);
        lemma_closed_set_holds_reachable(after, entry, set, steps);
        assert(set.contains(n));
    }
}

/// Absorbing a block makes it unreachable, and nothing new reachable.
proof fn lemma_absorbing_reaches_less(
    nodes: Seq<NodeModel>,
    after: Seq<NodeModel>,
    entry: int,
    id: int,
    target: int,
)
    requires
        0 <= id < nodes.len(),
        0 <= target < nodes.len(),
        target <= usize::MAX,
        target != entry,
        target != id,
        nodes[id].transfer == TransferModel::Goto(target as usize),
        is_reachable(nodes, entry, id),
        edges_into(nodes, entry, target, nodes.len() as int) == 1,
        after.len() == nodes.len(),
        forall|m: int| 0 <= m < nodes.len() && m != id ==> #[trigger] after[m] == nodes[m],
        after[id].transfer == nodes[target].transfer,
    ensures
        forall|n: int| #[trigger]
            is_reachable(after, entry, n) ==> is_reachable(nodes, entry, n) && n != target,
        is_reachable(nodes, entry, target),
{
    let set = Set::new(|n: int| is_reachable(nodes, entry, n) && n != target);
    lemma_entry_is_reachable(nodes, entry);
    assert((target as usize) as int == target);
    lemma_successor_is_reachable(nodes, entry, id, target);
    assert forall|m: int, n: int|
        set.contains(m) && 0 <= m < after.len() && #[trigger] after[m].transfer.leads_to(
            n,
        ) implies set.contains(n) by {
        if m == id {
            lemma_successor_is_reachable(nodes, entry, target, n);
            if n == target {
                lemma_two_edges(nodes, entry, target, id, target, nodes.len() as int);
            }
        } else {
            assert(after[m] == nodes[m]);
            lemma_successor_is_reachable(nodes, entry, m, n);
            if n == target {
                lemma_two_edges(nodes, entry, target, id, m, nodes.len() as int);
            }
        }
    }
    assert forall|n: int| #[trigger] is_reachable(after, entry, n) implies is_reachable(
        nodes,
        entry,
        n,
    ) && n != target by {
        let steps = choose|steps: nat| #[trigger] reached_within(after, entry, steps).contains(n);
        lemma_closed_set_holds_reachable(after, entry, set, steps);
        assert(set.contains(n));
    }
}

/// How many nodes that can be reached lead to the target.
fn count_edges(
    nodes: &Vec<Node>,
    marks: &Vec<bool>,
    target: usize,
    Ghost(entry): Ghost<int>,
) -> (res:
    usize)
    requires
        marks@ == marks_of(node_models(nodes@), entry),
    ensures
        res == edges_into(node_models(nodes@), entry, target as int, nodes@.len() as int),
{
    let ghost all = node_models(nodes@);
    let mut res: usize = 0;
    let mut i: usize = 0;
    while i < nodes.len()
        invariant
            i <= nodes@.len(),
            res <= i,
            all == node_models(nodes@),
            marks@ == marks_of(all, entry),
            res == edges_into(all, entry, target as int, i as int),
        decreases nodes@.len() - i,
    {
        assert(all[i as int] == nodes@[i as int].model());
        let leads: bool = match &nodes[i].transfer {
            Transfer::Goto(node) => *node == target,
            Transfer::Branch { then_node, else_node, .. } => *then_node == target || *else_node
                == target,
            Transfer::Exit(_) => false,
        };
        if marks[i] && leads {
            res = res + 1;
        }
        i = i + 1;
    }
    res
}

/// What the absorbing of blocks uses up: nodes that can be reached, and then
/// branches on constants.
spec fn is_progress(before: Seq<NodeModel>, after: Seq<NodeModel>, entry: int) -> bool {
    let a = unmarked(marks_of(before, entry));
    let b = unmarked(marks_of(after, entry));
    &&& before.len() == after.len()
    &&& b <= after.len()
    &&& a <= b
    &&& a < b || constant_branches(after) < constant_branches(before)
}

/// A change uses something up, and leaves every edge within the graph.
proof fn lemma_change_is_progress(
    nodes: Seq<NodeModel>,
    after: Seq<NodeModel>,
    entry: int,
    id: int,
)
    requires
        closed(nodes),
        0 <= id < nodes.len(),
        absorbed_at(nodes, entry, id) == Some(after),
    ensures
        closed(after),
        is_progress(nodes, after, entry),
{
    assert(nodes[id].transfer.stays_within(nodes.len() as int));
    let low = marks_of(after, entry);
    let high = marks_of(nodes, entry);
    match nodes[id].transfer {
        TransferModel::Branch { condition, then_node, else_node } => {
            lemma_decided(nodes, id, after[id]);
            assert(after =~= nodes.update(id, after[id]));
            assert forall|i: int| 0 <= i < after.len() implies (
            #[trigger] after[i]).transfer.stays_within(after.len() as int) by {
                assert(nodes[i].transfer.stays_within(nodes.len() as int));
            }
            lemma_deciding_reaches_no_more(nodes, after, entry);
            assert forall|i: int| 0 <= i < low.len() && #[trigger] low[i] implies high[i] by {
                assert(is_reachable(after, entry, i));
            }
        },
        TransferModel::Goto(target) => {
            assert(nodes[target as int].transfer.stays_within(nodes.len() as int));
            assert forall|i: int| 0 <= i < after.len() implies (
            #[trigger] after[i]).transfer.stays_within(after.len() as int) by {
                assert(nodes[i].transfer.stays_within(nodes.len() as int));
            }
            lemma_absorbing_reaches_less(nodes, after, entry, id, target as int);
            assert forall|i: int| 0 <= i < low.len() && #[trigger] low[i] implies high[i] by {
                assert(is_reachable(after, entry, i));
            }
            assert(!low[target as int] && high[target as int]) by {
                if low[target as int] {
                    assert(is_reachable(after, entry, target as int));
                }
            }
        },
        TransferModel::Exit(_) => {},
    }
    lemma_fewer_marks(low, high);
}

proof fn lemma_first_change_is_progress(
    nodes: Seq<NodeModel>,
    after: Seq<NodeModel>,
    entry: int,
    from: int,
)
    requires
        closed(nodes),
        absorbed_from(nodes, entry, from) == Some(after),
    ensures
        closed(after),
        is_progress(nodes, after, entry),
    decreases nodes.len() - from,
{
    match absorbed_at(nodes, entry, from) {
        Some(_) => lemma_change_is_progress(nodes, after, entry, from),
        None => lemma_first_change_is_progress(nodes, after, entry, from + 1),
    }
}

proof fn lemma_changes_end(nodes: Seq<NodeModel>, entry: int, steps: nat)
    requires
        closed(absorbed(nodes, entry, steps)),
    ensures
        is_linear(nodes, entry, linear(nodes, entry)),
    decreases
            absorbed(nodes, entry, steps).len() - unmarked(
                marks_of(absorbed(nodes, entry, steps), entry),
            ),
            constant_branches(absorbed(nodes, entry, steps)),
{
    let now = absorbed(nodes, entry, steps);
    match absorbed_from(now, entry, 0) {
        Some(after) => {
            lemma_first_change_is_progress(now, after, entry, 0);
            assert(absorbed(nodes, entry, steps + 1) == after);
            lemma_changes_end(nodes, entry, steps + 1);
        },
        None => {
            assert(is_linear(nodes, entry, now));
        },
    }
}

/// There is a graph after every change, where every edge ends at a node.
pub proof fn law_there_is_a_linear_graph(nodes: Seq<NodeModel>, entry: int)
    requires
        closed(nodes),
    ensures
        is_linear(nodes, entry, linear(nodes, entry)),
{
    lemma_changes_end(nodes, entry, 0);
}

/// Makes the change at a node, if it has one.
fn absorb(nodes: &mut Vec<Node>, marks: &Vec<bool>, id: usize, entry: usize) -> (res: bool)
    requires
        closed(node_models(old(nodes)@)),
        marks@ == marks_of(node_models(old(nodes)@), entry as int),
        id < old(nodes)@.len(),
    ensures
        final(nodes)@.len() == old(nodes)@.len(),
        closed(node_models(final(nodes)@)),
        res ==> absorbed_at(node_models(old(nodes)@), entry as int, id as int) == Some(
            node_models(final(nodes)@),
        ) && is_progress(node_models(old(nodes)@), node_models(final(nodes)@), entry as int),
        !res ==> absorbed_at(node_models(old(nodes)@), entry as int, id as int) is None
            && node_models(final(nodes)@) == node_models(old(nodes)@),
{
    let ghost before = node_models(nodes@);
    assert(before[id as int] == nodes@[id as int].model());
    if !marks[id] {
        return false;
    }
    let (decided, target): (bool, usize) = match &nodes[id].transfer {
        Transfer::Branch { condition, then_node, else_node } => match condition {
            IRExpr::Bool(value) => (
                true,
                if *value {
                    *then_node
                } else {
                    *else_node
                },
            ),
            _ => return false,
        },
        Transfer::Goto(target) => (false, *target),
        Transfer::Exit(_) => return false,
    };
    assert(before[id as int].transfer.stays_within(before.len() as int));
    if decided {
        nodes[id].transfer = Transfer::Goto(target);
        proof {
            let after = node_models(nodes@);
            let node = NodeModel {
                transfer: TransferModel::Goto(target),
                ..before[id as int]
            };
            assert(after =~= before.update(id as int, node));
            assert forall|i: int| 0 <= i < after.len() implies (
            #[trigger] after[i]).transfer.stays_within(after.len() as int) by {
                assert(before[i].transfer.stays_within(before.len() as int));
            }
            lemma_decided(before, id as int, node);
            lemma_deciding_reaches_no_more(before, after, entry as int);
            lemma_fewer_marks(marks_of(after, entry as int), marks_of(before, entry as int));
        }
        return true;
    }
    if target == id || target == entry || count_edges(nodes, marks, target, Ghost(entry as int))
        != 1 {
        return false;
    }
    assert(before[target as int] == nodes@[target as int].model());
    let mut body: Vec<(usize, IRInst)> = super::ir::clone_body(&nodes[id].body);
    let mut tail: Vec<(usize, IRInst)> = super::ir::clone_body(&nodes[target].body);
    let ghost front = body_models(body@);
    let ghost back = body_models(tail@);
    body.append(&mut tail);
    assert(body_models(body@) =~= front + back);
    let node: Node = Node {
        offset: nodes[target].offset,
        body,
        transfer: nodes[target].transfer.copied(),
    };
    let ghost model = node.model();
    nodes.set(id, node);
    proof {
        let after = node_models(nodes@);
        assert(after =~= before.update(id as int, model));
        assert(before[target as int].transfer.stays_within(before.len() as int));
        assert forall|i: int| 0 <= i < after.len() implies (
        #[trigger] after[i]).transfer.stays_within(after.len() as int) by {
            assert(before[i].transfer.stays_within(before.len() as int));
        }
        lemma_absorbing_reaches_less(
            before,
            after,
            entry as int,
            id as int,
            target as int,
        );
        let low = marks_of(after, entry as int);
        let high = marks_of(before, entry as int);
        assert forall|i: int| 0 <= i < low.len() && #[trigger] low[i] implies high[i] by {
            assert(is_reachable(after, entry as int, i));
        }
        assert(!low[target as int] && high[target as int]) by {
            if low[target as int] {
                assert(is_reachable(after, entry as int, target as int));
            }
        }
        lemma_fewer_marks(low, high);
    }
    true
}

/// Iteratively absorbs blocks which have exactly one incoming edge. Shared
/// continuations stay separate until the branch structuring step.
fn absorb_all(nodes: &mut Vec<Node>, entry: usize)
    requires
        closed(node_models(old(nodes)@)),
        entry < old(nodes)@.len(),
    ensures
        final(nodes)@.len() == old(nodes)@.len(),
        closed(node_models(final(nodes)@)),
        node_models(final(nodes)@) == linear(node_models(old(nodes)@), entry as int),
{
    let ghost start = node_models(nodes@);
    let ghost mut steps: nat = 0;
    loop
        invariant
            nodes@.len() == old(nodes)@.len(),
            entry < nodes@.len(),
            closed(node_models(nodes@)),
            start == node_models(old(nodes)@),
            node_models(nodes@) == absorbed(start, entry as int, steps),
        decreases
                nodes@.len() - unmarked(marks_of(node_models(nodes@), entry as int)),
                constant_branches(node_models(nodes@)),
    {
        let ghost before = node_models(nodes@);
        let marks: Vec<bool> = reachable(nodes, entry);
        assert(marks@ =~= marks_of(before, entry as int));
        let mut changed: bool = false;
        let mut id: usize = 0;
        while id < nodes.len() && !changed
            invariant
                id <= nodes@.len(),
                nodes@.len() == before.len(),
                closed(node_models(nodes@)),
                marks@ == marks_of(before, entry as int),
                changed ==> absorbed_from(before, entry as int, 0) == Some(node_models(nodes@))
                    && is_progress(before, node_models(nodes@), entry as int),
                !changed ==> node_models(nodes@) == before && absorbed_from(
                    before,
                    entry as int,
                    0,
                ) == absorbed_from(before, entry as int, id as int),
            decreases nodes@.len() - id,
        {
            changed = absorb(nodes, &marks, id, entry);
            id = id + 1;
        }
        if !changed {
            proof {
                assert(is_linear(start, entry as int, before));
                law_linear_is_unique(
                    start,
                    entry as int,
                    before,
                    linear(start, entry as int),
                );
            }
            return;
        }
        proof {
            steps = steps + 1;
        }
    }
}

// ---------------------------------------------------------------------------
// Renumbering

/// How many marks there are before a position: the new number of a marked node.
pub open spec fn rank(marks: Seq<bool>, at: int) -> nat
    decreases at,
{
    if at <= 0 {
        0
    } else {
        rank(marks, at - 1) + if marks[at - 1] {
            1nat
        } else {
            0nat
        }
    }
}

proof fn lemma_rank_grows(marks: Seq<bool>, a: int, b: int)
    requires
        0 <= a <= b,
    ensures
        rank(marks, a) <= rank(marks, b) <= rank(marks, a) + (b - a),
    decreases b,
{
    if a < b {
        lemma_rank_grows(marks, a, b - 1);
    }
}

proof fn lemma_marked_rank(marks: Seq<bool>, a: int, b: int)
    requires
        0 <= a < b,
        marks[a],
    ensures
        rank(marks, a) < rank(marks, b),
{
    lemma_rank_grows(marks, a + 1, b);
}

pub open spec fn renumbered(node: NodeModel, marks: Seq<bool>) -> NodeModel {
    NodeModel {
        transfer: match node.transfer {
            TransferModel::Goto(target) => TransferModel::Goto(rank(marks, target as int) as usize),
            TransferModel::Branch { condition, then_node, else_node } => TransferModel::Branch {
                condition,
                then_node: rank(marks, then_node as int) as usize,
                else_node: rank(marks, else_node as int) as usize,
            },
            TransferModel::Exit(instr) => TransferModel::Exit(instr),
        },
        ..node
    }
}

/// The marked ones of the first `count` nodes, renumbered.
pub open spec fn kept(nodes: Seq<NodeModel>, marks: Seq<bool>, count: int) -> Seq<NodeModel>
    decreases count,
{
    if count <= 0 {
        Seq::empty()
    } else if marks[count - 1] {
        kept(nodes, marks, count - 1).push(renumbered(nodes[count - 1], marks))
    } else {
        kept(nodes, marks, count - 1)
    }
}

/// The graph after every change, without the nodes that cannot be reached, and
/// its entry.
pub open spec fn eliminated(nodes: Seq<NodeModel>, entry: int) -> (Seq<NodeModel>, nat) {
    let after = linear(nodes, entry);
    let marks = marks_of(after, entry);
    (kept(after, marks, after.len() as int), rank(marks, entry))
}

fn rank_of(marks: &Vec<bool>, at: usize) -> (res: usize)
    requires
        at <= marks@.len(),
    ensures
        res == rank(marks@, at as int),
        res <= at,
{
    let mut res: usize = 0;
    let mut i: usize = 0;
    while i < at
        invariant
            i <= at,
            at <= marks@.len(),
            res <= i,
            res == rank(marks@, i as int),
        decreases at - i,
    {
        if marks[i] {
            res = res + 1;
        }
        i = i + 1;
    }
    res
}

fn renumber(node: &Node, marks: &Vec<bool>) -> (res: Node)
    requires
        node.model().transfer.stays_within(marks@.len() as int),
    ensures
        res.model() == renumbered(node.model(), marks@),
{
    Node {
        offset: node.offset,
        body: super::ir::clone_body(&node.body),
        transfer: match &node.transfer {
            Transfer::Goto(target) => Transfer::Goto(rank_of(marks, *target)),
            Transfer::Branch { condition, then_node, else_node } => Transfer::Branch {
                condition: condition.clone(),
                then_node: rank_of(marks, *then_node),
                else_node: rank_of(marks, *else_node),
            },
            Transfer::Exit(instr) => Transfer::Exit(instr.clone()),
        },
    }
}

/// Absorbs linear edges, and keeps only the nodes that can be reached. The second
/// result is the new entry.
pub fn eliminate_branches(nodes: Vec<Node>, entry: usize) -> (res: (Vec<Node>, usize))
    requires
        closed(node_models(nodes@)),
        entry < nodes@.len(),
    ensures
        eliminated(node_models(nodes@), entry as int) == (node_models(res.0@), res.1 as nat),
        closed(node_models(res.0@)),
        res.1 < res.0@.len(),
{
    let mut nodes = nodes;
    absorb_all(&mut nodes, entry);
    let ghost after = node_models(nodes@);
    let marks: Vec<bool> = reachable(&nodes, entry);
    assert(marks@ =~= marks_of(after, entry as int));
    let mut out: Vec<Node> = Vec::new();
    let ghost total = rank(marks@, nodes@.len() as int);
    assert(node_models(out@) =~= Seq::<NodeModel>::empty());
    let mut i: usize = 0;
    while i < nodes.len()
        invariant
            i <= nodes@.len(),
            entry < nodes@.len(),
            after == node_models(nodes@),
            closed(after),
            marks@ == marks_of(after, entry as int),
            total == rank(marks@, nodes@.len() as int),
            out@.len() == rank(marks@, i as int),
            node_models(out@) == kept(after, marks@, i as int),
            forall|k: int|
                0 <= k < out@.len() ==> (#[trigger] out@[k]).model().transfer.stays_within(
                    total as int,
                ),
        decreases nodes@.len() - i,
    {
        if marks[i] {
            assert(after[i as int] == nodes@[i as int].model());
            assert(after[i as int].transfer.stays_within(after.len() as int));
            let node: Node = renumber(&nodes[i], &marks);
            proof {
                assert forall|n: int| #[trigger] after[i as int].transfer.leads_to(n) implies rank(
                    marks@,
                    n,
                ) < total && marks@[n] by {
                    assert(is_reachable(after, entry as int, i as int));
                    lemma_successor_is_reachable(after, entry as int, i as int, n);
                    lemma_marked_rank(marks@, n, nodes@.len() as int);
                    lemma_rank_grows(marks@, 0, n);
                }
                lemma_rank_grows(marks@, 0, nodes@.len() as int);
                assert(total <= nodes.len());
                match after[i as int].transfer {
                    TransferModel::Goto(target) => {
                        assert(after[i as int].transfer.leads_to(target as int));
                        assert(rank(marks@, target as int) < total);
                    },
                    TransferModel::Branch { then_node, else_node, .. } => {
                        assert(after[i as int].transfer.leads_to(then_node as int));
                        assert(after[i as int].transfer.leads_to(else_node as int));
                        assert(rank(marks@, then_node as int) < total);
                        assert(rank(marks@, else_node as int) < total);
                    },
                    TransferModel::Exit(_) => {},
                }
            }
            let ghost before = node_models(out@);
            let ghost model = node.model();
            assert(model.transfer.stays_within(total as int));
            out.push(node);
            assert(node_models(out@) =~= before.push(model));
        }
        i = i + 1;
    }
    proof {
        lemma_entry_is_reachable(after, entry as int);
        lemma_marked_rank(marks@, entry as int, nodes@.len() as int);
        assert(closed(node_models(out@)));
    }
    let start: usize = rank_of(&marks, entry);
    (out, start)
}

// ---------------------------------------------------------------------------
// Postdominators

/// Whether control can come from a node to an exit over at most `steps` edges.
pub open spec fn exits_within(nodes: Seq<NodeModel>, node: int, steps: nat) -> bool
    decreases steps,
{
    &&& 0 <= node < nodes.len()
    &&& nodes[node].transfer is Exit || (steps > 0 && exists|next: int| #[trigger]
        nodes[node].transfer.leads_to(next) && exits_within(nodes, next, (steps - 1) as nat))
}

/// Whether a node can be reached, and control can come from it to an exit.
pub open spec fn is_exiting(nodes: Seq<NodeModel>, entry: int, node: int) -> bool {
    &&& is_reachable(nodes, entry, node)
    &&& exists|steps: nat| #[trigger] exits_within(nodes, node, steps)
}

/// Whether control ends or passes on to a marked node.
spec fn leads_on(transfer: TransferModel, marks: Seq<bool>) -> bool {
    transfer is Exit || exists|n: int| #[trigger] transfer.leads_to(n) && marks[n]
}

proof fn lemma_marked_exits(
    nodes: Seq<NodeModel>,
    entry: int,
    marks: Seq<bool>,
    node: int,
    steps: nat,
)
    requires
        closed(nodes),
        marks.len() == nodes.len(),
        0 <= node < nodes.len(),
        is_reachable(nodes, entry, node),
        exits_within(nodes, node, steps),
        forall|m: int|
            0 <= m < nodes.len() && is_reachable(nodes, entry, m) && #[trigger] leads_on(
                nodes[m].transfer,
                marks,
            ) ==> marks[m],
    ensures
        marks[node],
    decreases steps,
{
    if nodes[node].transfer is Exit {
        assert(leads_on(nodes[node].transfer, marks));
    } else {
        let next = choose|next: int| #[trigger]
            nodes[node].transfer.leads_to(next) && exits_within(nodes, next, (steps - 1) as nat);
        lemma_successor_is_reachable(nodes, entry, node, next);
        assert(nodes[node].transfer.stays_within(nodes.len() as int));
        lemma_marked_exits(nodes, entry, marks, next, (steps - 1) as nat);
        assert(leads_on(nodes[node].transfer, marks));
    }
}

/// Whether a node ends or leads to a marked one.
fn leads_to_mark(node: &Node, marks: &Vec<bool>) -> (res: bool)
    requires
        node.model().transfer.stays_within(marks@.len() as int),
    ensures
        res == leads_on(node.model().transfer, marks@),
{
    let ghost transfer = node.model().transfer;
    match &node.transfer {
        Transfer::Goto(target) => {
            assert(transfer.leads_to(*target as int));
            marks[*target]
        },
        Transfer::Branch { then_node, else_node, .. } => {
            assert(transfer.leads_to(*then_node as int));
            assert(transfer.leads_to(*else_node as int));
            marks[*then_node] || marks[*else_node]
        },
        Transfer::Exit(_) => true,
    }
}

/// Marks the nodes that can be reached and from which control can come to an exit.
fn find_exiting(nodes: &Vec<Node>, entry: usize) -> (res: Vec<bool>)
    requires
        closed(node_models(nodes@)),
        entry < nodes@.len(),
    ensures
        res@.len() == nodes@.len(),
        forall|n: int|
            0 <= n < nodes@.len() ==> #[trigger] res@[n] == is_exiting(
                node_models(nodes@),
                entry as int,
                n,
            ),
{
    let ghost all = node_models(nodes@);
    let found: Vec<bool> = reachable(nodes, entry);
    let mut marks: Vec<bool> = Vec::new();
    let mut i: usize = 0;
    while i < nodes.len()
        invariant
            i <= nodes@.len(),
            marks@.len() == i,
            forall|k: int| 0 <= k < i ==> !#[trigger] marks@[k],
        decreases nodes@.len() - i,
    {
        marks.push(false);
        i = i + 1;
    }
    loop
        invariant
            all == node_models(nodes@),
            closed(all),
            entry < nodes@.len(),
            found@.len() == nodes@.len(),
            forall|n: int|
                0 <= n < nodes@.len() ==> #[trigger] found@[n] == is_reachable(
                    all,
                    entry as int,
                    n,
                ),
            marks@.len() == nodes@.len(),
            forall|n: int|
                0 <= n < nodes@.len() && #[trigger] marks@[n] ==> is_exiting(
                    all,
                    entry as int,
                    n,
                ),
        decreases unmarked(marks@),
    {
        let ghost start = marks@;
        let mut changed: bool = false;
        let mut id: usize = 0;
        while id < nodes.len()
            invariant
                id <= nodes@.len(),
                all == node_models(nodes@),
                closed(all),
                found@.len() == nodes@.len(),
                forall|n: int|
                    0 <= n < nodes@.len() ==> #[trigger] found@[n] == is_reachable(
                        all,
                        entry as int,
                        n,
                    ),
                marks@.len() == nodes@.len(),
                forall|n: int|
                    0 <= n < nodes@.len() && #[trigger] marks@[n] ==> is_exiting(
                        all,
                        entry as int,
                        n,
                    ),
                changed ==> unmarked(marks@) < unmarked(start),
                !changed ==> marks@ == start,
                !changed ==> forall|m: int|
                    0 <= m < id && is_reachable(all, entry as int, m) && #[trigger] leads_on(
                        all[m].transfer,
                        marks@,
                    ) ==> marks@[m],
            decreases nodes@.len() - id,
        {
            assert(all[id as int] == nodes@[id as int].model());
            assert(all[id as int].transfer.stays_within(all.len() as int));
            if found[id] && !marks[id] && leads_to_mark(&nodes[id], &marks) {
                proof {
                    lemma_mark(marks@, id as int);
                    if all[id as int].transfer is Exit {
                        assert(exits_within(all, id as int, 0));
                    } else {
                        let n = choose|n: int| #[trigger]
                            all[id as int].transfer.leads_to(n) && marks@[n];
                        assert(is_exiting(all, entry as int, n));
                        let steps = choose|steps: nat| #[trigger] exits_within(all, n, steps);
                        assert(exits_within(all, id as int, steps + 1));
                    }
                }
                marks.set(id, true);
                changed = true;
            }
            id = id + 1;
        }
        if !changed {
            proof {
                assert forall|n: int| 0 <= n < nodes@.len() implies #[trigger] marks@[n]
                    == is_exiting(all, entry as int, n) by {
                    if is_exiting(all, entry as int, n) {
                        let steps = choose|steps: nat| #[trigger] exits_within(all, n, steps);
                        lemma_marked_exits(all, entry as int, marks@, n, steps);
                    }
                }
            }
            return marks;
        }
    }
}

/// The nodes that come after a node on every way out, as its successors have it,
/// with the node itself. The last position stands for the exit that all share.
pub open spec fn meet(nodes: Seq<NodeModel>, rows: Seq<Seq<bool>>, id: int) -> Seq<bool> {
    Seq::new(
        nodes.len() + 1,
        |c: int|
            c == id || match nodes[id].transfer {
                TransferModel::Goto(target) => rows[target as int][c],
                TransferModel::Branch { then_node, else_node, .. } => rows[then_node as int][c]
                    && rows[else_node as int][c],
                TransferModel::Exit(_) => rows[nodes.len() as int][c],
            },
    )
}

/// The row that holds one position alone.
pub open spec fn only(count: nat, at: int) -> Seq<bool> {
    Seq::new(count, |c: int| c == at)
}

/// The nodes that may come after an exiting node: the exiting ones and the exit.
pub open spec fn all_exiting(nodes: Seq<NodeModel>, entry: int) -> Seq<bool> {
    Seq::new(
        nodes.len() + 1,
        |c: int| c == nodes.len() || is_exiting(nodes, entry, c),
    )
}

pub open spec fn row_within(low: Seq<bool>, high: Seq<bool>) -> bool {
    &&& low.len() == high.len()
    &&& forall|c: int| 0 <= c < low.len() && #[trigger] low[c] ==> high[c]
}

/// Whether the rows agree with those of the successors.
pub open spec fn is_postdominance(
    nodes: Seq<NodeModel>,
    entry: int,
    rows: Seq<Seq<bool>>,
) -> bool {
    &&& rows.len() == nodes.len() + 1
    &&& rows[nodes.len() as int] == only(nodes.len() + 1, nodes.len() as int)
    &&& forall|id: int|
        0 <= id < nodes.len() ==> #[trigger] rows[id] == if is_exiting(nodes, entry, id) {
            meet(nodes, rows, id)
        } else {
            only(nodes.len() + 1, id)
        }
    &&& forall|id: int|
        0 <= id < nodes.len() && is_exiting(nodes, entry, id) ==> row_within(
            #[trigger] rows[id],
            all_exiting(nodes, entry),
        )
}

/// The largest rows that agree with those of the successors: what comes after a
/// node on every way out.
pub open spec fn is_greatest_postdominance(
    nodes: Seq<NodeModel>,
    entry: int,
    rows: Seq<Seq<bool>>,
) -> bool {
    &&& is_postdominance(nodes, entry, rows)
    &&& forall|other: Seq<Seq<bool>>, id: int| #[trigger]
        is_postdominance(nodes, entry, other) && 0 <= id < nodes.len() ==> row_within(
            other[id],
            #[trigger] rows[id],
        )
}

pub open spec fn postdominance(nodes: Seq<NodeModel>, entry: int) -> Seq<Seq<bool>> {
    choose|rows: Seq<Seq<bool>>| is_greatest_postdominance(nodes, entry, rows)
}

/// There is only one largest postdominance.
pub proof fn law_postdominance_is_unique(
    nodes: Seq<NodeModel>,
    entry: int,
    a: Seq<Seq<bool>>,
    b: Seq<Seq<bool>>,
)
    requires
        is_greatest_postdominance(nodes, entry, a),
        is_greatest_postdominance(nodes, entry, b),
    ensures
        a == b,
{
    assert forall|id: int| 0 <= id < a.len() implies #[trigger] a[id] == b[id] by {
        if id < nodes.len() {
            assert(row_within(a[id], b[id]));
            assert(row_within(b[id], a[id]));
            assert forall|c: int| 0 <= c < a[id].len() implies a[id][c] == b[id][c] by {
                if a[id][c] {
                    assert(b[id][c]);
                }
                if b[id][c] {
                    assert(a[id][c]);
                }
            }
            assert(a[id] =~= b[id]);
        }
    }
    assert(a =~= b);
}

/// Whether a node is the closest that comes after another on every way out.
pub open spec fn is_join(rows: Seq<Seq<bool>>, id: int, candidate: int) -> bool {
    &&& candidate != id
    &&& rows[id][candidate]
    &&& forall|other: int|
        0 <= other < rows.len() && #[trigger] rows[id][other] ==> other == id || other == candidate
            || !rows[other][candidate]
}

/// The closest node, from a position on, that comes after a node on every way out.
pub open spec fn join_from(rows: Seq<Seq<bool>>, id: int, from: int) -> Option<usize>
    decreases rows.len() - from,
{
    if from < 0 || from >= rows.len() - 1 {
        None
    } else if is_join(rows, id, from) {
        Some(from as usize)
    } else {
        join_from(rows, id, from + 1)
    }
}

/// The continuation that the arms of each node share.
pub open spec fn joins_of(nodes: Seq<NodeModel>, entry: int) -> Seq<Option<usize>> {
    Seq::new(nodes.len(), |id: int| join_from(postdominance(nodes, entry), id, 0))
}

/// Whether control can take a way from node to node until it exits.
pub open spec fn is_way_out(nodes: Seq<NodeModel>, way: Seq<int>) -> bool {
    &&& way.len() > 0
    &&& forall|i: int| 0 <= i < way.len() ==> 0 <= #[trigger] way[i] < nodes.len()
    &&& forall|i: int|
        0 <= i < way.len() - 1 ==> nodes[#[trigger] way[i]].transfer.leads_to(way[i + 1])
    &&& nodes[way.last()].transfer is Exit
}

/// What a postdominance holds of a node lies on every way out of it.
pub proof fn law_continuations_lie_on_every_way_out(
    nodes: Seq<NodeModel>,
    entry: int,
    rows: Seq<Seq<bool>>,
    way: Seq<int>,
    candidate: int,
)
    requires
        is_postdominance(nodes, entry, rows),
        is_way_out(nodes, way),
        0 <= candidate < nodes.len(),
        rows[way[0]][candidate],
    ensures
        way.contains(candidate),
    decreases way.len(),
{
    let id = way[0];
    let count = nodes.len() as int;
    if candidate != id {
        assert(is_exiting(nodes, entry, id)) by {
            assert(rows[id] == if is_exiting(nodes, entry, id) {
                meet(nodes, rows, id)
            } else {
                only(nodes.len() + 1, id)
            });
        }
        assert(rows[id] == meet(nodes, rows, id));
        assert(meet(nodes, rows, id)[candidate]);
        if way.len() == 1 {
            assert(rows[count][candidate]);
            assert(!only(nodes.len() + 1, count)[candidate]);
        } else {
            let rest = way.subrange(1, way.len() as int);
            assert(nodes[way[0]].transfer.leads_to(way[0int + 1]));
            assert(rows[way[1]][candidate]);
            assert forall|i: int| 0 <= i < rest.len() implies 0 <= #[trigger] rest[i]
                < nodes.len() by {
                assert(rest[i] == way[i + 1]);
            }
            assert forall|i: int| 0 <= i < rest.len() - 1 implies nodes[
                #[trigger] rest[i]
            ].transfer.leads_to(rest[i + 1]) by {
                assert(rest[i] == way[i + 1]);
                assert(rest[i + 1] == way[i + 2]);
            }
            assert(rest.last() == way.last());
            law_continuations_lie_on_every_way_out(nodes, entry, rows, rest, candidate);
            let at = choose|i: int| 0 <= i < rest.len() && rest[i] == candidate;
            assert(way[at + 1] == candidate);
        }
    } else {
        assert(way[0] == candidate);
    }
}

proof fn lemma_no_join(rows: Seq<Seq<bool>>, id: int, from: int)
    requires
        0 <= from,
        forall|c: int| 0 <= c < rows.len() && #[trigger] rows[id][c] ==> c == id,
    ensures
        join_from(rows, id, from) is None,
    decreases rows.len() - from,
{
    if from < rows.len() - 1 {
        assert(!is_join(rows, id, from));
        lemma_no_join(rows, id, from + 1);
    }
}

/// A node from which control never exits has no continuation: none is invented
/// outside a closed cycle.
pub proof fn law_closed_cycles_have_no_continuation(
    nodes: Seq<NodeModel>,
    entry: int,
    rows: Seq<Seq<bool>>,
    id: int,
)
    requires
        is_postdominance(nodes, entry, rows),
        0 <= id < nodes.len(),
        !is_exiting(nodes, entry, id),
    ensures
        join_from(rows, id, 0) is None,
{
    assert(rows[id] == only(nodes.len() + 1, id));
    lemma_no_join(rows, id, 0);
}

pub open spec fn row_seqs(rows: Seq<Vec<bool>>) -> Seq<Seq<bool>> {
    rows.map_values(|row: Vec<bool>| row@)
}

fn compute_meet(nodes: &Vec<Node>, rows: &Vec<Vec<bool>>, id: usize) -> (res: Vec<bool>)
    requires
        closed(node_models(nodes@)),
        id < nodes@.len(),
        rows@.len() == nodes@.len() + 1,
        forall|k: int| 0 <= k < rows@.len() ==> (#[trigger] rows@[k])@.len() == nodes@.len() + 1,
    ensures
        res@ == meet(node_models(nodes@), row_seqs(rows@), id as int),
{
    let ghost all = node_models(nodes@);
    assert(all[id as int] == nodes@[id as int].model());
    assert(all[id as int].transfer.stays_within(all.len() as int));
    let exit: usize = nodes.len();
    let (first, second): (usize, usize) = match &nodes[id].transfer {
        Transfer::Goto(target) => (*target, *target),
        Transfer::Branch { then_node, else_node, .. } => (*then_node, *else_node),
        Transfer::Exit(_) => (exit, exit),
    };
    let width: usize = rows.len();
    let mut res: Vec<bool> = Vec::new();
    let mut c: usize = 0;
    while c < width
        invariant
            c <= width,
            width == nodes@.len() + 1,
            rows@.len() == width,
            first < width,
            second < width,
            forall|k: int| 0 <= k < rows@.len() ==> (#[trigger] rows@[k])@.len() == width,
            res@.len() == c,
            forall|k: int|
                0 <= k < c ==> (#[trigger] res@[k]) == (k == id || (rows@[first as int]@[k]
                    && rows@[second as int]@[k])),
        decreases width - c,
    {
        res.push(c == id || (rows[first][c] && rows[second][c]));
        c = c + 1;
    }
    assert(res@ =~= meet(all, row_seqs(rows@), id as int));
    res
}

fn same_row(a: &Vec<bool>, b: &Vec<bool>) -> (res: bool)
    requires
        a@.len() == b@.len(),
    ensures
        res == (a@ == b@),
{
    let mut i: usize = 0;
    while i < a.len()
        invariant
            i <= a@.len(),
            a@.len() == b@.len(),
            forall|k: int| 0 <= k < i ==> a@[k] == b@[k],
        decreases a@.len() - i,
    {
        if a[i] != b[i] {
            return false;
        }
        i = i + 1;
    }
    assert(a@ =~= b@);
    true
}

spec fn total_unmarked(rows: Seq<Seq<bool>>) -> nat
    decreases rows.len(),
{
    if rows.len() == 0 {
        0
    } else {
        total_unmarked(rows.drop_last()) + unmarked(rows.last())
    }
}

proof fn lemma_total_update(rows: Seq<Seq<bool>>, at: int, row: Seq<bool>)
    requires
        0 <= at < rows.len(),
    ensures
        total_unmarked(rows.update(at, row)) + unmarked(rows[at]) == total_unmarked(rows)
            + unmarked(row),
    decreases rows.len(),
{
    let after = rows.update(at, row);
    if at < rows.len() - 1 {
        lemma_total_update(rows.drop_last(), at, row);
        assert(after.drop_last() =~= rows.drop_last().update(at, row));
    } else {
        assert(after.drop_last() =~= rows.drop_last());
    }
}

proof fn lemma_total_bounded(rows: Seq<Seq<bool>>, width: nat)
    requires
        forall|k: int| 0 <= k < rows.len() ==> (#[trigger] rows[k]).len() == width,
    ensures
        total_unmarked(rows) <= rows.len() * width,
    decreases rows.len(),
{
    if rows.len() > 0 {
        let front = rows.drop_last();
        assert forall|k: int| 0 <= k < front.len() implies (#[trigger] front[k]).len() == width by {
            assert(front[k] == rows[k]);
        }
        lemma_total_bounded(front, width);
        assert(rows[rows.len() - 1].len() == width);
        lemma_fewer_marks(rows.last(), rows.last());
        assert(rows.len() * width == front.len() * width + width) by (nonlinear_arith)
            requires
                front.len() + 1 == rows.len(),
        ;
    }
}

/// What the search for the largest rows keeps: every row holds what any answer
/// holds, and what its successors leave of it.
spec fn is_above(nodes: Seq<NodeModel>, entry: int, rows: Seq<Seq<bool>>) -> bool {
    &&& rows.len() == nodes.len() + 1
    &&& forall|k: int| 0 <= k < rows.len() ==> (#[trigger] rows[k]).len() == nodes.len() + 1
    &&& rows[nodes.len() as int] == only(nodes.len() + 1, nodes.len() as int)
    &&& forall|id: int|
        0 <= id < nodes.len() && !is_exiting(nodes, entry, id) ==> #[trigger] rows[id] == only(
            nodes.len() + 1,
            id,
        )
    &&& forall|id: int|
        0 <= id < nodes.len() && is_exiting(nodes, entry, id) ==> row_within(
            meet(nodes, rows, id),
            #[trigger] rows[id],
        ) && row_within(rows[id], all_exiting(nodes, entry))
    &&& forall|other: Seq<Seq<bool>>, id: int| #[trigger]
        is_postdominance(nodes, entry, other) && 0 <= id < nodes.len() ==> row_within(
            other[id],
            #[trigger] rows[id],
        )
}

/// The rows stay above every answer when one is replaced by what its successors
/// leave of it.
proof fn lemma_meet_stays_above(
    nodes: Seq<NodeModel>,
    entry: int,
    rows: Seq<Seq<bool>>,
    id: int,
)
    requires
        closed(nodes),
        is_above(nodes, entry, rows),
        0 <= id < nodes.len(),
        is_exiting(nodes, entry, id),
    ensures
        is_above(nodes, entry, rows.update(id, meet(nodes, rows, id))),
{
    let row = meet(nodes, rows, id);
    let after = rows.update(id, row);
    assert(row_within(row, rows[id]));
    assert(nodes[id].transfer.stays_within(nodes.len() as int));
    assert forall|k: int, c: int|
        0 <= k < rows.len() && 0 <= c < nodes.len() + 1 && after[k][c] implies rows[k][c] by {
        if k == id {
            assert(row[c]);
        }
    }
    assert forall|j: int| 0 <= j < nodes.len() && is_exiting(nodes, entry, j) implies row_within(
        meet(nodes, after, j),
        #[trigger] after[j],
    ) && row_within(after[j], all_exiting(nodes, entry)) by {
        assert(nodes[j].transfer.stays_within(nodes.len() as int));
        assert(row_within(meet(nodes, rows, j), rows[j]));
        assert(row_within(rows[j], all_exiting(nodes, entry)));
        let low = meet(nodes, after, j);
        let high = meet(nodes, rows, j);
        assert forall|c: int| 0 <= c < low.len() && #[trigger] low[c] implies after[j][c] by {
            assert(high[c]);
            if j != id {
                assert(rows[j][c]);
            }
        }
        assert forall|c: int| 0 <= c < after[j].len() && #[trigger] after[j][c] implies all_exiting(
            nodes,
            entry,
        )[c] by {
            assert(rows[j][c]);
        }
    }
    assert forall|other: Seq<Seq<bool>>, j: int| #[trigger]
        is_postdominance(nodes, entry, other) && 0 <= j < nodes.len() implies row_within(
        other[j],
        #[trigger] after[j],
    ) by {
        assert(row_within(other[j], rows[j]));
        if j == id {
            assert(other[id] == meet(nodes, other, id));
            assert forall|c: int| 0 <= c < other[id].len() && #[trigger] other[id][c] implies row[c] by {
                assert(other[nodes.len() as int] == rows[nodes.len() as int]);
                match nodes[id].transfer {
                    TransferModel::Goto(target) => {
                        assert(row_within(other[target as int], rows[target as int]));
                    },
                    TransferModel::Branch { then_node, else_node, .. } => {
                        assert(row_within(other[then_node as int], rows[then_node as int]));
                        assert(row_within(other[else_node as int], rows[else_node as int]));
                    },
                    TransferModel::Exit(_) => {},
                }
            }
        }
    }
}

proof fn lemma_meet_of_start(
    nodes: Seq<NodeModel>,
    entry: int,
    rows: Seq<Seq<bool>>,
    id: int,
    c: int,
)
    requires
        closed(nodes),
        0 <= id < nodes.len(),
        is_exiting(nodes, entry, id),
        0 <= c <= nodes.len(),
        rows.len() == nodes.len() + 1,
        forall|k: int|
            0 <= k < rows.len() ==> #[trigger] rows[k] == if k < nodes.len() && is_exiting(
                nodes,
                entry,
                k,
            ) {
                all_exiting(nodes, entry)
            } else {
                only(nodes.len() + 1, k)
            },
        meet(nodes, rows, id)[c],
    ensures
        all_exiting(nodes, entry)[c],
{
    assert(nodes[id].transfer.stays_within(nodes.len() as int));
    if c != id && c != nodes.len() {
        // An exiting node has an exiting successor, and that row is the whole.
        let steps = choose|steps: nat| #[trigger] exits_within(nodes, id, steps);
        if nodes[id].transfer is Exit {
            assert(rows[nodes.len() as int][c]);
        } else {
            let next = choose|next: int| #[trigger]
                nodes[id].transfer.leads_to(next) && exits_within(
                    nodes,
                    next,
                    (steps - 1) as nat,
                );
            lemma_successor_is_reachable(nodes, entry, id, next);
            assert(is_exiting(nodes, entry, next));
            assert(rows[next][c]);
        }
    }
}

proof fn lemma_start_is_above(nodes: Seq<NodeModel>, entry: int, rows: Seq<Seq<bool>>)
    requires
        closed(nodes),
        rows.len() == nodes.len() + 1,
        forall|k: int|
            0 <= k < rows.len() ==> #[trigger] rows[k] == if k < nodes.len() && is_exiting(
                nodes,
                entry,
                k,
            ) {
                all_exiting(nodes, entry)
            } else {
                only(nodes.len() + 1, k)
            },
    ensures
        is_above(nodes, entry, rows),
{
    assert forall|j: int| 0 <= j < nodes.len() && is_exiting(nodes, entry, j) implies row_within(
        meet(nodes, rows, j),
        #[trigger] rows[j],
    ) && row_within(rows[j], all_exiting(nodes, entry)) by {
        assert(nodes[j].transfer.stays_within(nodes.len() as int));
        let low = meet(nodes, rows, j);
        assert forall|c: int| 0 <= c < low.len() && #[trigger] low[c] implies rows[j][c] by {
            lemma_meet_of_start(nodes, entry, rows, j, c);
        }
    }
    assert forall|other: Seq<Seq<bool>>, j: int| #[trigger]
        is_postdominance(nodes, entry, other) && 0 <= j < nodes.len() implies row_within(
        other[j],
        #[trigger] rows[j],
    ) by {
        assert(other[j] == other[j]);
    }
}

/// The rows that the search starts from.
fn first_rows(nodes: &Vec<Node>, exiting: &Vec<bool>, Ghost(entry): Ghost<int>) -> (res: Vec<
    Vec<bool>,
>)
    requires
        closed(node_models(nodes@)),
        exiting@.len() == nodes@.len(),
        forall|n: int|
            0 <= n < nodes@.len() ==> #[trigger] exiting@[n] == is_exiting(
                node_models(nodes@),
                entry,
                n,
            ),
        nodes@.len() < usize::MAX,
    ensures
        is_above(node_models(nodes@), entry, row_seqs(res@)),
{
    let ghost all = node_models(nodes@);
    let exit: usize = nodes.len();
    let mut rows: Vec<Vec<bool>> = Vec::new();
    let mut id: usize = 0;
    while id <= exit
        invariant
            id <= exit + 1,
            exit == nodes@.len(),
            exit < usize::MAX,
            all == node_models(nodes@),
            exiting@.len() == exit,
            forall|n: int|
                0 <= n < nodes@.len() ==> #[trigger] exiting@[n] == is_exiting(all, entry, n),
            rows@.len() == id,
            forall|k: int|
                0 <= k < id ==> (#[trigger] rows@[k])@ == if k < exit && exiting@[k] {
                    all_exiting(all, entry)
                } else {
                    only((exit + 1) as nat, k)
                },
        decreases exit + 1 - id,
    {
        let mut row: Vec<bool> = Vec::new();
        let mut c: usize = 0;
        while c <= exit
            invariant
                c <= exit + 1,
                id <= exit,
                exit < usize::MAX,
                exiting@.len() == exit,
                row@.len() == c,
                forall|k: int|
                    0 <= k < c ==> (#[trigger] row@[k]) == if id < exit && exiting@[id as int] {
                        k == exit || exiting@[k]
                    } else {
                        k == id
                    },
            decreases exit + 1 - c,
        {
            row.push(
                if id < exit && exiting[id] {
                    c == exit || exiting[c]
                } else {
                    c == id
                },
            );
            c = c + 1;
        }
        assert(row@ =~= if id < exit && exiting@[id as int] {
            all_exiting(all, entry)
        } else {
            only((exit + 1) as nat, id as int)
        });
        rows.push(row);
        id = id + 1;
    }
    proof {
        let seqs = row_seqs(rows@);
        assert forall|k: int| 0 <= k < seqs.len() implies #[trigger] seqs[k] == if k < all.len()
            && is_exiting(all, entry, k) {
            all_exiting(all, entry)
        } else {
            only(all.len() + 1, k)
        } by {
            assert(seqs[k] == rows@[k]@);
        }
        lemma_start_is_above(all, entry, seqs);
    }
    rows
}

proof fn lemma_rows_settle(nodes: Seq<NodeModel>, entry: int, rows: Seq<Seq<bool>>)
    requires
        closed(nodes),
        is_above(nodes, entry, rows),
    ensures
        is_greatest_postdominance(nodes, entry, postdominance(nodes, entry)),
    decreases (nodes.len() + 1) * (nodes.len() + 1) - total_unmarked(rows),
{
    if exists|id: int|
        0 <= id < nodes.len() && is_exiting(nodes, entry, id) && #[trigger] rows[id] != meet(
            nodes,
            rows,
            id,
        ) {
        let id = choose|id: int|
            0 <= id < nodes.len() && is_exiting(nodes, entry, id) && #[trigger] rows[id] != meet(
                nodes,
                rows,
                id,
            );
        let row = meet(nodes, rows, id);
        let after = rows.update(id, row);
        lemma_meet_stays_above(nodes, entry, rows, id);
        lemma_total_update(rows, id, row);
        assert(row_within(row, rows[id]));
        lemma_fewer_marks(row, rows[id]);
        lemma_total_bounded(after, nodes.len() + 1);
        lemma_rows_settle(nodes, entry, after);
    } else {
        assert(is_greatest_postdominance(nodes, entry, rows));
    }
}

/// There are largest rows that agree with those of the successors, where every edge
/// ends at a node.
pub proof fn law_there_is_a_postdominance(nodes: Seq<NodeModel>, entry: int)
    requires
        closed(nodes),
    ensures
        is_greatest_postdominance(nodes, entry, postdominance(nodes, entry)),
{
    let rows = Seq::new(
        nodes.len() + 1,
        |k: int|
            if k < nodes.len() && is_exiting(nodes, entry, k) {
                all_exiting(nodes, entry)
            } else {
                only(nodes.len() + 1, k)
            },
    );
    lemma_start_is_above(nodes, entry, rows);
    lemma_rows_settle(nodes, entry, rows);
}

/// The largest rows that agree with those of the successors.
fn find_postdominance(nodes: &Vec<Node>, entry: usize) -> (res: Vec<Vec<bool>>)
    requires
        closed(node_models(nodes@)),
        entry < nodes@.len(),
        nodes@.len() < usize::MAX,
    ensures
        row_seqs(res@) == postdominance(node_models(nodes@), entry as int),
        res@.len() == nodes@.len() + 1,
        forall|k: int| 0 <= k < res@.len() ==> (#[trigger] res@[k])@.len() == nodes@.len() + 1,
{
    let ghost all = node_models(nodes@);
    let exiting: Vec<bool> = find_exiting(nodes, entry);
    let mut rows: Vec<Vec<bool>> = first_rows(nodes, &exiting, Ghost(entry as int));
    let exit: usize = nodes.len();
    proof {
        lemma_total_bounded(row_seqs(rows@), all.len() + 1);
    }
    loop
        invariant
            exit == nodes@.len(),
            all == node_models(nodes@),
            closed(all),
            exiting@.len() == exit,
            forall|n: int|
                0 <= n < nodes@.len() ==> #[trigger] exiting@[n] == is_exiting(
                    all,
                    entry as int,
                    n,
                ),
            is_above(all, entry as int, row_seqs(rows@)),
            rows@.len() == exit + 1,
            total_unmarked(row_seqs(rows@)) <= (all.len() + 1) * (all.len() + 1),
        decreases (all.len() + 1) * (all.len() + 1) - total_unmarked(row_seqs(rows@)),
    {
        let ghost start = row_seqs(rows@);
        let mut changed: bool = false;
        let mut id: usize = 0;
        while id < exit
            invariant
                id <= exit,
                exit == nodes@.len(),
                all == node_models(nodes@),
                closed(all),
                exiting@.len() == exit,
                forall|n: int|
                    0 <= n < nodes@.len() ==> #[trigger] exiting@[n] == is_exiting(
                        all,
                        entry as int,
                        n,
                    ),
                is_above(all, entry as int, row_seqs(rows@)),
                rows@.len() == exit + 1,
                changed ==> total_unmarked(row_seqs(rows@)) > total_unmarked(start),
                !changed ==> row_seqs(rows@) == start,
                !changed ==> forall|k: int|
                    0 <= k < id && is_exiting(all, entry as int, k) ==> #[trigger] start[k] == meet(
                        all,
                        start,
                        k,
                    ),
            decreases exit - id,
        {
            let ghost before = row_seqs(rows@);
            if exiting[id] {
                assert forall|k: int| 0 <= k < rows@.len() implies (#[trigger] rows@[k])@.len()
                    == nodes@.len() + 1 by {
                    assert(before[k].len() == all.len() + 1);
                }
                let row: Vec<bool> = compute_meet(nodes, &rows, id);
                assert(before[id as int] == rows@[id as int]@);
                if !same_row(&row, &rows[id]) {
                    let ghost new = row@;
                    rows.set(id, row);
                    proof {
                        let after = row_seqs(rows@);
                        assert(after =~= before.update(id as int, new));
                        lemma_meet_stays_above(all, entry as int, before, id as int);
                        lemma_total_update(before, id as int, new);
                        assert(row_within(new, before[id as int]));
                        lemma_fewer_marks(new, before[id as int]);
                    }
                    changed = true;
                }
            }
            id = id + 1;
        }
        proof {
            lemma_total_bounded(row_seqs(rows@), all.len() + 1);
        }
        if !changed {
            proof {
                assert(is_greatest_postdominance(all, entry as int, start));
                law_postdominance_is_unique(
                    all,
                    entry as int,
                    start,
                    postdominance(all, entry as int),
                );
                assert forall|k: int| 0 <= k < rows@.len() implies (#[trigger] rows@[k])@.len()
                    == nodes@.len() + 1 by {
                    assert(start[k].len() == all.len() + 1);
                }
            }
            return rows;
        }
    }
}

fn check_join(rows: &Vec<Vec<bool>>, id: usize, candidate: usize) -> (res: bool)
    requires
        id < rows@.len(),
        candidate < rows@.len(),
        forall|k: int| 0 <= k < rows@.len() ==> (#[trigger] rows@[k])@.len() == rows@.len(),
    ensures
        res == is_join(row_seqs(rows@), id as int, candidate as int),
{
    let ghost seqs = row_seqs(rows@);
    assert(seqs[id as int] == rows@[id as int]@);
    if candidate == id || !rows[id][candidate] {
        return false;
    }
    let mut other: usize = 0;
    while other < rows.len()
        invariant
            other <= rows@.len(),
            id < rows@.len(),
            candidate < rows@.len(),
            forall|k: int| 0 <= k < rows@.len() ==> (#[trigger] rows@[k])@.len() == rows@.len(),
            seqs == row_seqs(rows@),
            forall|k: int|
                0 <= k < other && #[trigger] seqs[id as int][k] ==> k == id || k == candidate
                    || !seqs[k][candidate as int],
        decreases rows@.len() - other,
    {
        assert(seqs[other as int] == rows@[other as int]@);
        assert(seqs[id as int] == rows@[id as int]@);
        if rows[id][other] && other != id && other != candidate && rows[other][candidate] {
            assert(seqs[id as int][other as int]);
            return false;
        }
        other = other + 1;
    }
    true
}

/// The continuation that the arms of each node share: a common postdominator. A
/// virtual exit joins returns, external jumps and ends. Closed cycles have no
/// exit and must not invent a continuation outside their infinite loop.
pub fn postdominators(nodes: &Vec<Node>, entry: usize) -> (res: Vec<Option<usize>>)
    requires
        closed(node_models(nodes@)),
        entry < nodes@.len(),
        nodes@.len() < usize::MAX,
    ensures
        res@ == joins_of(node_models(nodes@), entry as int),
        forall|k: int|
            0 <= k < res@.len() && #[trigger] res@[k] is Some ==> res@[k]->0 < nodes@.len(),
{
    let ghost all = node_models(nodes@);
    let rows: Vec<Vec<bool>> = find_postdominance(nodes, entry);
    let ghost seqs = row_seqs(rows@);
    let mut res: Vec<Option<usize>> = Vec::new();
    let mut id: usize = 0;
    while id < nodes.len()
        invariant
            id <= nodes@.len(),
            rows@.len() == nodes@.len() + 1,
            forall|k: int| 0 <= k < rows@.len() ==> (#[trigger] rows@[k])@.len() == rows@.len(),
            seqs == row_seqs(rows@),
            res@.len() == id,
            forall|k: int| 0 <= k < id ==> (#[trigger] res@[k]) == join_from(seqs, k, 0),
            forall|k: int|
                0 <= k < res@.len() && #[trigger] res@[k] is Some ==> res@[k]->0 < nodes@.len(),
        decreases nodes@.len() - id,
    {
        let mut found: Option<usize> = None;
        let mut candidate: usize = 0;
        while candidate < nodes.len() && found.is_none()
            invariant
                candidate <= nodes@.len(),
                id < nodes@.len(),
                rows@.len() == nodes@.len() + 1,
                forall|k: int|
                    0 <= k < rows@.len() ==> (#[trigger] rows@[k])@.len() == rows@.len(),
                seqs == row_seqs(rows@),
                match found {
                    Some(join) => join_from(seqs, id as int, 0) == Some(join) && join
                        < nodes@.len(),
                    None => join_from(seqs, id as int, 0) == join_from(
                        seqs,
                        id as int,
                        candidate as int,
                    ),
                },
            decreases nodes@.len() - candidate,
        {
            if check_join(&rows, id, candidate) {
                found = Some(candidate);
            }
            candidate = candidate + 1;
        }
        res.push(found);
        id = id + 1;
    }
    assert(res@ =~= joins_of(all, entry as int));
    res
}

} // verus!
