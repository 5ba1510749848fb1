//! A retained render graph: labelled nodes, directed edges between them, and a
//! deterministic execution order that respects every edge.
use vstd::prelude::*;

use crate::seq_facts::{
    lemma_distinct_not_in_prefix, lemma_distinct_push, lemma_distinct_remove,
    lemma_distinct_subseq_len, lemma_push_contains,
};
use crate::text::{
    chars_less, chars_lt, chars_of, lemma_chars_lt_asymmetric, lemma_chars_lt_irreflexive,
    lemma_chars_lt_total, lemma_chars_lt_transitive,
};

verus! {

/// The name of a render graph node.
#[derive(Debug)]
pub struct NodeLabel(String);

impl View for NodeLabel {
    type V = Seq<char>;

    closed spec fn view(&self) -> Seq<char> {
        self.0@
    }
}

impl NodeLabel {
    pub fn new(label: &str) -> (node: NodeLabel)
        ensures
            node@ == label@,
    {
        NodeLabel(label.to_owned())
    }

    pub fn as_str(&self) -> (text: &str)
        ensures
            text@ == self@,
    {
        self.0.as_str()
    }

    pub fn into_string(self) -> (text: String)
        ensures
            text@ == self@,
    {
        self.0
    }

    /// The characters of the label.
    fn chars(&self) -> (chars: Vec<char>)
        ensures
            chars@ == self@,
    {
        chars_of(self.0.as_str())
    }
}

impl Clone for NodeLabel {
    fn clone(&self) -> (copy: Self)
        ensures
            copy@ == self@,
    {
        NodeLabel(self.0.clone())
    }
}

impl PartialEq for NodeLabel {
    fn eq(&self, other: &Self) -> (same: bool) {
        self.0 == other.0
    }
}

impl vstd::std_specs::cmp::PartialEqSpecImpl for NodeLabel {
    open spec fn obeys_eq_spec() -> bool {
        true
    }

    open spec fn eq_spec(&self, other: &Self) -> bool {
        self@ == other@
    }
}

impl Eq for NodeLabel {
}

impl From<&str> for NodeLabel {
    fn from(label: &str) -> (node: Self)
        ensures
            node@ == label@,
    {
        NodeLabel::new(label)
    }
}

impl vstd::std_specs::convert::FromSpecImpl<&str> for NodeLabel {
    open spec fn obeys_from_spec() -> bool {
        false
    }

    /// A label with the text's characters; `from` itself states that its
    /// result has them.
    open spec fn from_spec(label: &str) -> Self {
        choose|node: NodeLabel| node@ == label@
    }
}

fn same_label(a: &NodeLabel, b: &NodeLabel) -> (same: bool)
    ensures
        same == (a@ == b@),
{
    a.0 == b.0
}

fn label_less(a: &NodeLabel, b: &NodeLabel) -> (lt: bool)
    ensures
        lt == chars_lt(a@, b@),
{
    let ca = a.chars();
    let cb = b.chars();
    chars_less(ca.as_slice(), cb.as_slice())
}

/// What went wrong in a render graph operation.
#[derive(Debug, Clone, PartialEq, Eq)]
pub enum RenderGraphError {
    MissingNode(NodeLabel),
    DuplicateNode(NodeLabel),
    MissingEdge { from: NodeLabel, to: NodeLabel },
    DuplicateEdge { from: NodeLabel, to: NodeLabel },
    MissingPass(NodeLabel),
    DuplicatePass(NodeLabel),
    Cycle,
}

impl RenderGraphError {
    /// What `message` says of the error.
    pub open spec fn spec_message(&self) -> Seq<char> {
        match self {
            RenderGraphError::MissingNode(label) => "render graph node `"@ + label@ + "` is missing"@,
            RenderGraphError::DuplicateNode(label) => "render graph node `"@ + label@ + "` already exists"@,
            RenderGraphError::MissingEdge { from, to } => "render graph edge `"@ + from@ + "` -> `"@ + to@
                + "` is missing"@,
            RenderGraphError::DuplicateEdge { from, to } => "render graph edge `"@ + from@ + "` -> `"@ + to@
                + "` already exists"@,
            RenderGraphError::MissingPass(label) => "render graph pass `"@ + label@ + "` is missing"@,
            RenderGraphError::DuplicatePass(label) => "render graph pass `"@ + label@ + "` already exists"@,
            RenderGraphError::Cycle => "render graph contains a cycle"@,
        }
    }

    /// A human-readable description of the error.
    pub fn message(&self) -> (text: String)
        ensures
            text@ == self.spec_message(),
    {
        match self {
            RenderGraphError::MissingNode(label) => describe_one(
                "render graph node `",
                label,
                "` is missing",
            ),
            RenderGraphError::DuplicateNode(label) => describe_one(
                "render graph node `",
                label,
                "` already exists",
            ),
            RenderGraphError::MissingEdge { from, to } => describe_two(
                "render graph edge `",
                from,
                "` -> `",
                to,
                "` is missing",
            ),
            RenderGraphError::DuplicateEdge { from, to } => describe_two(
                "render graph edge `",
                from,
                "` -> `",
                to,
                "` already exists",
            ),
            RenderGraphError::MissingPass(label) => describe_one(
                "render graph pass `",
                label,
                "` is missing",
            ),
            RenderGraphError::DuplicatePass(label) => describe_one(
                "render graph pass `",
                label,
                "` already exists",
            ),
            RenderGraphError::Cycle => "render graph contains a cycle".to_owned(),
        }
    }
}

fn describe_one(before: &str, label: &NodeLabel, after: &str) -> (text: String)
    ensures
        text@ == before@ + label@ + after@,
{
    let mut text = before.to_owned();
    text.append(label.as_str());
    text.append(after);
    text
}

fn describe_two(
    before: &str,
    first: &NodeLabel,
    middle: &str,
    second: &NodeLabel,
    after: &str,
) -> (text: String)
    ensures
        text@ == before@ + first@ + middle@ + second@ + after@,
{
    let mut text = before.to_owned();
    text.append(first.as_str());
    text.append(middle);
    text.append(second.as_str());
    text.append(after);
    text
}

/// The labels of a sequence of nodes.
pub open spec fn label_views(labels: Seq<NodeLabel>) -> Seq<Seq<char>> {
    labels.map_values(|label: NodeLabel| label@)
}

/// The label pairs of a sequence of edges.
pub open spec fn edge_views(edges: Seq<(NodeLabel, NodeLabel)>) -> Seq<(Seq<char>, Seq<char>)> {
    edges.map_values(|edge: (NodeLabel, NodeLabel)| (edge.0@, edge.1@))
}

/// The abstract content of a render graph: its node labels and its edges.
pub struct GraphView {
    pub nodes: Set<Seq<char>>,
    pub edges: Set<(Seq<char>, Seq<char>)>,
}

impl GraphView {
    /// Every edge starts and ends at a node of the graph.
    pub open spec fn edges_join_nodes(self) -> bool {
        forall|a: Seq<char>, b: Seq<char>|
            #[trigger] self.edges.contains((a, b)) ==> self.nodes.contains(a)
                && self.nodes.contains(b)
    }

    /// `x` is a node that is not in `done` and whose predecessors are all in `done`.
    pub open spec fn is_ready(self, done: Seq<Seq<char>>, x: Seq<char>) -> bool {
        &&& self.nodes.contains(x)
        &&& !done.contains(x)
        &&& forall|p: Seq<char>| #[trigger] self.edges.contains((p, x)) ==> done.contains(p)
    }

    /// `order` lists every node once, each node once all its predecessors are
    /// listed, and at each step the least ready label in code-point order.
    pub open spec fn is_least_ready_order(self, order: Seq<Seq<char>>) -> bool {
        &&& forall|x: Seq<char>| self.nodes.contains(x) ==> order.contains(x)
        &&& forall|i: int| 0 <= i < order.len() ==> self.is_ready(order.take(i), #[trigger] order[i])
        &&& forall|i: int, y: Seq<char>|
            #![trigger order[i], self.is_ready(order.take(i), y)]
            0 <= i < order.len() && self.is_ready(order.take(i), y) && y != order[i]
                ==> chars_lt(order[i], y)
    }

    /// `order` lists every node exactly once, and the source of every edge
    /// before its target.
    pub open spec fn is_topological_order(self, order: Seq<Seq<char>>) -> bool {
        &&& order.no_duplicates()
        &&& forall|i: int| 0 <= i < order.len() ==> self.nodes.contains(#[trigger] order[i])
        &&& forall|x: Seq<char>| self.nodes.contains(x) ==> order.contains(x)
        &&& forall|i: int, j: int|
            0 <= i < order.len() && 0 <= j < order.len() && self.edges.contains(
                (#[trigger] order[i], #[trigger] order[j]),
            ) ==> i < j
    }

    /// The graph has no directed cycle: some order lists sources before targets.
    pub open spec fn is_acyclic(self) -> bool {
        exists|order: Seq<Seq<char>>| self.is_topological_order(order)
    }
}

/// A least-ready order is a topological order.
pub proof fn lemma_least_ready_is_topological(g: GraphView, order: Seq<Seq<char>>)
    requires
        g.is_least_ready_order(order),
    ensures
        g.is_topological_order(order),
        g.is_acyclic(),
{
    assert forall|i: int, j: int| 0 <= i < j < order.len() implies order[i] != order[j] by {
        assert(g.is_ready(order.take(j), order[j]));
        assert(order.take(j)[i] == order[i]);
    }
    assert forall|i: int| 0 <= i < order.len() implies g.nodes.contains(#[trigger] order[i]) by {
        assert(g.is_ready(order.take(i), order[i]));
    }
    assert forall|i: int, j: int|
        0 <= i < order.len() && 0 <= j < order.len() && g.edges.contains(
            (#[trigger] order[i], #[trigger] order[j]),
        ) implies i < j by {
        assert(g.is_ready(order.take(j), order[j]));
        assert(order.take(j).contains(order[i]));
        let k = choose|k: int| 0 <= k < order.take(j).len() && order.take(j)[k] == order[i];
        assert(order[k] == order[i]);
        if k != i {
            if k < i {
                assert(g.is_ready(order.take(i), order[i]));
                assert(order.take(i)[k] == order[k]);
            } else {
                assert(g.is_ready(order.take(k), order[k]));
                assert(order.take(k)[i] == order[i]);
            }
        }
    }    assert(g.is_topological_order(order));
}

proof fn lemma_first_stuck(t: Seq<Seq<char>>, stuck: Set<Seq<char>>, i: int) -> (m: int)
    requires
        0 <= i <= t.len(),
        forall|j: int| 0 <= j < i ==> !stuck.contains(#[trigger] t[j]),
        exists|j: int| i <= j < t.len() && stuck.contains(#[trigger] t[j]),
    ensures
        0 <= m < t.len(),
        stuck.contains(t[m]),
        forall|j: int| 0 <= j < m ==> !stuck.contains(#[trigger] t[j]),
    decreases t.len() - i,
{
    if stuck.contains(t[i]) {
        i
    } else {
        let w = choose|j: int| i <= j < t.len() && stuck.contains(#[trigger] t[j]);
        assert(i + 1 <= w);
        lemma_first_stuck(t, stuck, i + 1)
    }
}

/// A non-empty set of nodes in which every node has a predecessor in the set
/// rules out a topological order.
pub proof fn lemma_stuck_set_is_cyclic(g: GraphView, stuck: Set<Seq<char>>, x0: Seq<char>)
    requires
        g.edges_join_nodes(),
        stuck.contains(x0),
        forall|x: Seq<char>| #[trigger] stuck.contains(x) ==> g.nodes.contains(x),
        forall|x: Seq<char>|
            #[trigger] stuck.contains(x) ==> exists|p: Seq<char>|
                stuck.contains(p) && #[trigger] g.edges.contains((p, x)),
    ensures
        !g.is_acyclic(),
{
    if g.is_acyclic() {
        let t = choose|t: Seq<Seq<char>>| g.is_topological_order(t);
        assert(t.contains(x0));
        let w = choose|j: int| 0 <= j < t.len() && t[j] == x0;
        assert(stuck.contains(t[w]));
        let m = lemma_first_stuck(t, stuck, 0);
        assert(stuck.contains(t[m]));
        let p = choose|p: Seq<char>| stuck.contains(p) && #[trigger] g.edges.contains((p, t[m]));
        assert(g.nodes.contains(p));
        assert(t.contains(p));
        let q = choose|q: int| 0 <= q < t.len() && t[q] == p;
        assert(g.edges.contains((t[q], t[m])));
        assert(q < m);
        assert(stuck.contains(t[q]));
    }
}

fn copy_labels(labels: &Vec<NodeLabel>) -> (copy: Vec<NodeLabel>)
    ensures
        label_views(copy@) == label_views(labels@),
{
    let mut copy: Vec<NodeLabel> = Vec::new();
    let mut i: usize = 0;
    while i < labels.len()
        invariant
            0 <= i <= labels@.len(),
            label_views(copy@) == label_views(labels@).take(i as int),
        decreases labels@.len() - i,
    {
        let ghost before = copy@;
        copy.push(labels[i].clone());
        proof {
            assert(label_views(copy@) =~= label_views(before).push(labels@[i as int]@));
            assert(label_views(labels@).take(i + 1) =~= label_views(labels@).take(i as int).push(
                labels@[i as int]@,
            ));
        }
        i = i + 1;
    }
    assert(label_views(labels@).take(labels@.len() as int) =~= label_views(labels@));
    copy
}

/// A copy of the edges without the one at position `skip` (all of them when
/// `skip` is past the end).
fn copy_edges_except(edges: &Vec<(NodeLabel, NodeLabel)>, skip: usize) -> (copy: Vec<
    (NodeLabel, NodeLabel),
>)
    ensures
        edge_views(copy@) == if skip < edges@.len() {
            edge_views(edges@).remove(skip as int)
        } else {
            edge_views(edges@)
        },
{
    let ghost ev = edge_views(edges@);
    let mut copy: Vec<(NodeLabel, NodeLabel)> = Vec::new();
    let mut i: usize = 0;
    while i < edges.len()
        invariant
            0 <= i <= edges@.len(),
            ev == edge_views(edges@),
            copy@.len() == if i <= skip { i as int } else { i - 1 },
            forall|k: int|
                0 <= k < copy@.len() ==> #[trigger] edge_views(copy@)[k] == if k < skip {
                    ev[k]
                } else {
                    ev[k + 1]
                },
        decreases edges@.len() - i,
    {
        if i != skip {
            let ghost before = copy@;
            copy.push((edges[i].0.clone(), edges[i].1.clone()));
            proof {
                assert(edge_views(copy@) =~= edge_views(before).push(ev[i as int]));
            }
        }
        i = i + 1;
    }
    proof {
        if skip < edges@.len() {
            ev.remove_ensures(skip as int);
            assert(edge_views(copy@) =~= ev.remove(skip as int));
        } else {
            assert(edge_views(copy@) =~= ev);
        }
    }
    copy
}

/// A directed graph of labelled render nodes.
#[derive(Debug)]
pub struct RenderGraph {
    nodes: Vec<NodeLabel>,
    edges: Vec<(NodeLabel, NodeLabel)>,
}

impl View for RenderGraph {
    type V = GraphView;

    closed spec fn view(&self) -> GraphView {
        GraphView {
            nodes: label_views(self.nodes@).to_set(),
            edges: edge_views(self.edges@).to_set(),
        }
    }
}

impl RenderGraph {
    #[verifier::type_invariant]
    spec fn well_formed(self) -> bool {
        &&& label_views(self.nodes@).no_duplicates()
        &&& edge_views(self.edges@).no_duplicates()
        &&& forall|i: int|
            0 <= i < self.edges@.len() ==> label_views(self.nodes@).contains(
                #[trigger] self.edges@[i].0@,
            ) && label_views(self.nodes@).contains(self.edges@[i].1@)
    }

    proof fn lemma_view_edges_join_nodes(&self)
        requires
            self.well_formed(),
        ensures
            self@.edges_join_nodes(),
    {
        assert forall|a: Seq<char>, b: Seq<char>| #[trigger]
            self@.edges.contains((a, b)) implies self@.nodes.contains(a) && self@.nodes.contains(
            b,
        ) by {
            let i = choose|i: int|
                0 <= i < edge_views(self.edges@).len() && edge_views(self.edges@)[i] == (a, b);
            assert(label_views(self.nodes@).contains(self.edges@[i].0@));
            assert(label_views(self.nodes@).contains(self.edges@[i].1@));
        }
    }

    pub fn new() -> (graph: Self)
        ensures
            graph@.nodes == Set::<Seq<char>>::empty(),
            graph@.edges == Set::<(Seq<char>, Seq<char>)>::empty(),
            graph@.edges_join_nodes(),
    {
        let graph = RenderGraph { nodes: Vec::new(), edges: Vec::new() };
        assert(graph@.nodes =~= Set::<Seq<char>>::empty());
        assert(graph@.edges =~= Set::<(Seq<char>, Seq<char>)>::empty());
        graph
    }

    /// The position of the node with this label, if there is one.
    fn find_node(&self, label: &NodeLabel) -> (found: Option<usize>)
        ensures
            match found {
                Some(i) => i < self.nodes@.len() && self.nodes@[i as int]@ == label@,
                None => !label_views(self.nodes@).contains(label@),
            },
    {
        let mut i: usize = 0;
        while i < self.nodes.len()
            invariant
                0 <= i <= self.nodes@.len(),
                forall|j: int| 0 <= j < i ==> self.nodes@[j]@ != label@,
            decreases self.nodes@.len() - i,
        {
            if same_label(&self.nodes[i], label) {
                return Some(i);
            }
            i = i + 1;
        }
        proof {
            if label_views(self.nodes@).contains(label@) {
                let j = choose|j: int|
                    0 <= j < label_views(self.nodes@).len() && label_views(self.nodes@)[j]
                        == label@;
                assert(self.nodes@[j]@ == label@);
            }
        }
        None
    }

    /// The position of the edge `from -> to`, if there is one.
    fn find_edge(&self, from: &NodeLabel, to: &NodeLabel) -> (found: Option<usize>)
        ensures
            match found {
                Some(i) => i < self.edges@.len() && self.edges@[i as int].0@ == from@
                    && self.edges@[i as int].1@ == to@,
                None => !edge_views(self.edges@).contains((from@, to@)),
            },
    {
        let mut i: usize = 0;
        while i < self.edges.len()
            invariant
                0 <= i <= self.edges@.len(),
                forall|j: int|
                    0 <= j < i ==> !(self.edges@[j].0@ == from@ && self.edges@[j].1@ == to@),
            decreases self.edges@.len() - i,
        {
            if same_label(&self.edges[i].0, from) && same_label(&self.edges[i].1, to) {
                return Some(i);
            }
            i = i + 1;
        }
        proof {
            if edge_views(self.edges@).contains((from@, to@)) {
                let j = choose|j: int|
                    0 <= j < edge_views(self.edges@).len() && edge_views(self.edges@)[j] == (
                        from@,
                        to@,
                    );
                assert(self.edges@[j].0@ == from@ && self.edges@[j].1@ == to@);
            }
        }
        None
    }

    fn require_node(&self, label: &NodeLabel) -> (result: Result<(), RenderGraphError>)
        ensures
            match result {
                Ok(()) => self@.nodes.contains(label@),
                Err(error) => !self@.nodes.contains(label@) && (error matches RenderGraphError::MissingNode(
                    missing,
                ) && missing@ == label@),
            },
    {
        match self.find_node(label) {
            Some(i) => {
                assert(label_views(self.nodes@)[i as int] == label@);
                Ok(())
            },
            None => Err(RenderGraphError::MissingNode(label.clone())),
        }
    }

    /// Adds a node; a label that is already present is refused and the graph is
    /// left unchanged.
    pub fn add_node(&mut self, label: &str) -> (result: Result<(), RenderGraphError>)
        ensures
            old(self)@.edges_join_nodes() ==> final(self)@.edges_join_nodes(),
            final(self)@.edges == old(self)@.edges,
            match result {
                Ok(()) => !old(self)@.nodes.contains(label@) && final(self)@.nodes == old(
                    self,
                )@.nodes.insert(label@),
                Err(error) => old(self)@.nodes.contains(label@) && final(self)@.nodes == old(
                    self,
                )@.nodes && (error matches RenderGraphError::DuplicateNode(duplicate)
                    && duplicate@ == label@),
            },
    {
        proof {
            use_type_invariant(&*self);
        }
        let label = NodeLabel::new(label);
        match self.find_node(&label) {
            Some(i) => {
                assert(label_views(self.nodes@)[i as int] == label@);
                Err(RenderGraphError::DuplicateNode(label))
            },
            None => {
                let ghost before = self.nodes@;
                let mut nodes = copy_labels(&self.nodes);
                nodes.push(label);
                proof {
                    assert(label_views(nodes@) =~= label_views(before).push(nodes@.last()@));
                    lemma_distinct_push(label_views(before), nodes@.last()@);
                    assert forall|i: int| 0 <= i < self.edges@.len() implies label_views(
                        nodes@,
                    ).contains(#[trigger] self.edges@[i].0@) && label_views(nodes@).contains(
                        self.edges@[i].1@,
                    ) by {
                        assert(label_views(before).contains(self.edges@[i].0@));
                        assert(label_views(before).contains(self.edges@[i].1@));
                    }
                }
                self.nodes = nodes;
                Ok(())
            },
        }
    }

    /// Adds the edge `from -> to` between two existing nodes.
    pub fn add_node_edge(&mut self, from: &str, to: &str) -> (result: Result<
        (),
        RenderGraphError,
    >)
        ensures
            final(self)@.edges_join_nodes(),
            final(self)@.nodes == old(self)@.nodes,
            match result {
                Ok(()) => old(self)@.nodes.contains(from@) && old(self)@.nodes.contains(to@)
                    && !old(self)@.edges.contains((from@, to@)) && final(self)@.edges == old(
                    self,
                )@.edges.insert((from@, to@)),
                Err(error) => final(self)@.edges == old(self)@.edges && if !old(
                    self,
                )@.nodes.contains(from@) {
                    error matches RenderGraphError::MissingNode(missing) && missing@ == from@
                } else if !old(self)@.nodes.contains(to@) {
                    error matches RenderGraphError::MissingNode(missing) && missing@ == to@
                } else {
                    old(self)@.edges.contains((from@, to@)) && (
                    error matches RenderGraphError::DuplicateEdge { from: f, to: t } && f@
                        == from@ && t@ == to@)
                },
            },
    {
        proof {
            use_type_invariant(&*self);
            self.lemma_view_edges_join_nodes();
        }
        let from = NodeLabel::new(from);
        let to = NodeLabel::new(to);
        self.require_node(&from)?;
        self.require_node(&to)?;
        match self.find_edge(&from, &to) {
            Some(i) => {
                assert(edge_views(self.edges@)[i as int] == (from@, to@));
                Err(RenderGraphError::DuplicateEdge { from, to })
            },
            None => {
                let ghost before = self.edges@;
                proof {
                    let nodes = label_views(self.nodes@);
                    assert(nodes.to_set().contains(from@));
                    assert(nodes.to_set().contains(to@));
                }
                let ghost fv = from@;
                let ghost tv = to@;
                let mut edges = copy_edges_except(&self.edges, self.edges.len());
                let ghost copied = edges@;
                edges.push((from, to));
                proof {
                    assert(edge_views(edges@) =~= edge_views(copied).push((fv, tv)));
                    assert(edges@.last().0@ == fv && edges@.last().1@ == tv);
                    assert(edge_views(edges@) =~= edge_views(before).push((fv, tv)));
                    lemma_distinct_push(edge_views(before), (fv, tv));
                    assert forall|i: int| 0 <= i < edges@.len() implies label_views(
                        self.nodes@,
                    ).contains(#[trigger] edges@[i].0@) && label_views(self.nodes@).contains(
                        edges@[i].1@,
                    ) by {
                        if i < before.len() {
                            assert(edge_views(edges@)[i] == edge_views(before)[i]);
                            assert(label_views(self.nodes@).contains(before[i].0@));
                            assert(label_views(self.nodes@).contains(before[i].1@));
                        }
                    }
                }
                self.edges = edges;
                proof {
                    use_type_invariant(&*self);
                    self.lemma_view_edges_join_nodes();
                }
                Ok(())
            },
        }
    }

    /// Removes a node together with every edge that starts or ends at it.
    pub fn remove_node(&mut self, label: &str) -> (result: Result<(), RenderGraphError>)
        ensures
            final(self)@.edges_join_nodes(),
            match result {
                Ok(()) => old(self)@.nodes.contains(label@) && final(self)@.nodes == old(
                    self,
                )@.nodes.remove(label@) && final(self)@.edges == old(self)@.edges.filter(
                    |edge: (Seq<char>, Seq<char>)| edge.0 != label@ && edge.1 != label@,
                ),
                Err(error) => !old(self)@.nodes.contains(label@) && final(self)@ == old(self)@
                    && (error matches RenderGraphError::MissingNode(missing) && missing@
                    == label@),
            },
    {
        proof {
            use_type_invariant(&*self);
            self.lemma_view_edges_join_nodes();
        }
        let label = NodeLabel::new(label);
        let found = match self.find_node(&label) {
            Some(index) => index,
            None => {
                return Err(RenderGraphError::MissingNode(label));
            },
        };
        let ghost old_nodes = self.nodes@;
        let ghost old_edges = self.edges@;
        let ghost nv = label_views(old_nodes);
        let ghost ev = edge_views(old_edges);
        proof {
            assert(nv[found as int] == label@);
            assert forall|k: int| 0 <= k < ev.len() implies nv.contains(#[trigger] ev[k].0)
                && nv.contains(ev[k].1) by {
                assert(nv.contains(old_edges[k].0@));
                assert(nv.contains(old_edges[k].1@));
            }
        }
        let mut kept_edges: Vec<(NodeLabel, NodeLabel)> = Vec::new();
        let mut i: usize = 0;
        while i < self.edges.len()
            invariant
                0 <= i <= self.edges@.len(),
                self.edges@ == old_edges,
                ev == edge_views(old_edges),
                nv == label_views(old_nodes),
                ev.no_duplicates(),
                forall|k: int| 0 <= k < ev.len() ==> nv.contains(#[trigger] ev[k].0) && nv.contains(ev[k].1),
                edge_views(kept_edges@).no_duplicates(),
                forall|e: (Seq<char>, Seq<char>)|
                    #[trigger] edge_views(kept_edges@).contains(e) <==> (ev.take(i as int).contains(e)
                        && e.0 != label@ && e.1 != label@),
            decreases self.edges@.len() - i,
        {
            let edge = &self.edges[i];
            let ghost kept_before = edge_views(kept_edges@);
            proof {
                lemma_distinct_not_in_prefix(ev, i as int);
                lemma_push_contains(ev.take(i as int), ev[i as int]);
                assert(ev[i as int] == (old_edges[i as int].0@, old_edges[i as int].1@));
            }
            if !same_label(&edge.0, &label) && !same_label(&edge.1, &label) {
                kept_edges.push((edge.0.clone(), edge.1.clone()));
                proof {
                    assert(edge_views(kept_edges@) =~= kept_before.push(ev[i as int]));
                    lemma_distinct_push(kept_before, ev[i as int]);
                }
            } else {
                proof {
                    assert(edge_views(kept_edges@) =~= kept_before);
                    assert(ev[i as int].0 == label@ || ev[i as int].1 == label@);
                }
            }
            proof {
                assert forall|e: (Seq<char>, Seq<char>)|
                    #[trigger] edge_views(kept_edges@).contains(e) <==> (ev.take(i + 1).contains(e)
                        && e.0 != label@ && e.1 != label@) by {
                    assert(ev.take(i + 1).contains(e) <==> (ev.take(i as int).contains(e) || e == ev[i as int]));
                    assert(kept_before.contains(e) <==> (ev.take(i as int).contains(e) && e.0 != label@ && e.1 != label@));
                }
            }
            i = i + 1;
        }
        let mut kept_nodes: Vec<NodeLabel> = Vec::new();
        let mut j: usize = 0;
        while j < self.nodes.len()
            invariant
                0 <= j <= self.nodes@.len(),
                self.nodes@ == old_nodes,
                nv == label_views(old_nodes),
                nv.no_duplicates(),
                label_views(kept_nodes@).no_duplicates(),
                forall|x: Seq<char>|
                    #[trigger] label_views(kept_nodes@).contains(x) <==> (nv.take(j as int).contains(x)
                        && x != label@),
            decreases self.nodes@.len() - j,
        {
            let ghost kept_before = label_views(kept_nodes@);
            proof {
                lemma_distinct_not_in_prefix(nv, j as int);
                lemma_push_contains(nv.take(j as int), nv[j as int]);
            }
            if !same_label(&self.nodes[j], &label) {
                kept_nodes.push(self.nodes[j].clone());
                proof {
                    assert(label_views(kept_nodes@) =~= kept_before.push(nv[j as int]));
                    lemma_distinct_push(kept_before, nv[j as int]);
                }
            } else {
                proof {
                    assert(label_views(kept_nodes@) =~= kept_before);
                    assert(nv[j as int] == label@);
                }
            }
            proof {
                assert forall|x: Seq<char>|
                    #[trigger] label_views(kept_nodes@).contains(x) <==> (nv.take(j + 1).contains(x)
                        && x != label@) by {
                    assert(nv.take(j + 1).contains(x) <==> (nv.take(j as int).contains(x) || x == nv[j as int]));
                    assert(kept_before.contains(x) <==> (nv.take(j as int).contains(x) && x != label@));
                }
            }
            j = j + 1;
        }
        proof {
            assert(ev.take(old_edges.len() as int) =~= ev);
            assert(nv.take(old_nodes.len() as int) =~= nv);
            assert forall|k: int| 0 <= k < kept_edges@.len() implies nv.contains(
                #[trigger] kept_edges@[k].0@,
            ) && nv.contains(kept_edges@[k].1@) by {
                let e = edge_views(kept_edges@)[k];
                assert(edge_views(kept_edges@).contains(e));
                let m = choose|m: int| 0 <= m < ev.len() && ev[m] == e;
                assert(nv.contains(ev[m].0));
            }
        }
        self.edges = kept_edges;
        proof {
            assert forall|k: int| 0 <= k < self.edges@.len() implies label_views(kept_nodes@).contains(
                #[trigger] self.edges@[k].0@,
            ) && label_views(kept_nodes@).contains(self.edges@[k].1@) by {
                let e = edge_views(self.edges@)[k];
                assert(edge_views(self.edges@).contains(e));
            }
        }
        self.nodes = kept_nodes;
        proof {
            let pred = |edge: (Seq<char>, Seq<char>)| edge.0 != label@ && edge.1 != label@;
            assert(label_views(self.nodes@).to_set() =~= nv.to_set().remove(label@));
            assert(edge_views(self.edges@).to_set() =~= ev.to_set().filter(pred));
            use_type_invariant(&*self);
            self.lemma_view_edges_join_nodes();
        }
        Ok(())
    }

    /// Removes the edge `from -> to` between two existing nodes.
    pub fn remove_node_edge(&mut self, from: &str, to: &str) -> (result: Result<
        (),
        RenderGraphError,
    >)
        ensures
            final(self)@.edges_join_nodes(),
            final(self)@.nodes == old(self)@.nodes,
            match result {
                Ok(()) => old(self)@.edges.contains((from@, to@)) && final(self)@.edges == old(
                    self,
                )@.edges.remove((from@, to@)),
                Err(error) => final(self)@.edges == old(self)@.edges && if !old(
                    self,
                )@.nodes.contains(from@) {
                    error matches RenderGraphError::MissingNode(missing) && missing@ == from@
                } else if !old(self)@.nodes.contains(to@) {
                    error matches RenderGraphError::MissingNode(missing) && missing@ == to@
                } else {
                    !old(self)@.edges.contains((from@, to@)) && (
                    error matches RenderGraphError::MissingEdge { from: f, to: t } && f@ == from@
                        && t@ == to@)
                },
            },
    {
        proof {
            use_type_invariant(&*self);
            self.lemma_view_edges_join_nodes();
        }
        let from = NodeLabel::new(from);
        let to = NodeLabel::new(to);
        self.require_node(&from)?;
        self.require_node(&to)?;
        match self.find_edge(&from, &to) {
            None => Err(RenderGraphError::MissingEdge { from, to }),
            Some(i) => {
                let ghost before = self.edges@;
                proof {
                    assert(edge_views(before)[i as int] == (from@, to@));
                }
                proof {
                    lemma_distinct_remove(edge_views(before), i as int);
                }
                let edges = copy_edges_except(&self.edges, i);
                proof {
                    edge_views(before).remove_ensures(i as int);
                    assert forall|k: int| 0 <= k < edges@.len() implies label_views(
                        self.nodes@,
                    ).contains(#[trigger] edges@[k].0@) && label_views(self.nodes@).contains(
                        edges@[k].1@,
                    ) by {
                        let m = if k < i { k } else { k + 1 };
                        assert(edge_views(edges@)[k] == edge_views(before)[m]);
                        assert(label_views(self.nodes@).contains(before[m].0@));
                    }
                }
                self.edges = edges;
                proof {
                    assert(edge_views(self.edges@).to_set() =~= edge_views(before).to_set().remove(
                        (from@, to@),
                    ));
                    use_type_invariant(&*self);
                    self.lemma_view_edges_join_nodes();
                }
                Ok(())
            },
        }
    }

    pub fn contains(&self, label: &str) -> (present: bool)
        ensures
            present == self@.nodes.contains(label@),
    {
        let label = NodeLabel::new(label);
        match self.find_node(&label) {
            Some(i) => {
                assert(label_views(self.nodes@)[i as int] == label@);
                true
            },
            None => false,
        }
    }

    fn list_contains(list: &Vec<NodeLabel>, label: &NodeLabel) -> (present: bool)
        ensures
            present == label_views(list@).contains(label@),
    {
        let mut i: usize = 0;
        while i < list.len()
            invariant
                0 <= i <= list@.len(),
                forall|j: int| 0 <= j < i ==> list@[j]@ != label@,
            decreases list@.len() - i,
        {
            if same_label(&list[i], label) {
                assert(label_views(list@)[i as int] == label@);
                return true;
            }
            i = i + 1;
        }
        proof {
            if label_views(list@).contains(label@) {
                let j = choose|j: int|
                    0 <= j < label_views(list@).len() && label_views(list@)[j] == label@;
                assert(list@[j]@ == label@);
            }
        }
        false
    }

    /// Whether every predecessor of `label` is already listed in `done`.
    fn predecessors_done(&self, label: &NodeLabel, done: &Vec<NodeLabel>) -> (all_done: bool)
        ensures
            all_done == (forall|p: Seq<char>| #[trigger]
                self@.edges.contains((p, label@)) ==> label_views(done@).contains(p)),
    {
        let mut i: usize = 0;
        while i < self.edges.len()
            invariant
                0 <= i <= self.edges@.len(),
                forall|j: int|
                    0 <= j < i && self.edges@[j].1@ == label@ ==> label_views(done@).contains(
                        #[trigger] self.edges@[j].0@,
                    ),
            decreases self.edges@.len() - i,
        {
            let edge = &self.edges[i];
            if same_label(&edge.1, label) && !Self::list_contains(done, &edge.0) {
                proof {
                    assert(edge_views(self.edges@)[i as int] == (edge.0@, label@));
                    assert(self@.edges.contains((edge.0@, label@)));
                }
                return false;
            }
            i = i + 1;
        }
        proof {
            assert forall|p: Seq<char>| #[trigger]
                self@.edges.contains((p, label@)) implies label_views(done@).contains(p) by {
                let j = choose|j: int|
                    0 <= j < edge_views(self.edges@).len() && edge_views(self.edges@)[j] == (
                        p,
                        label@,
                    );
                assert(self.edges@[j].1@ == label@);
                assert(self.edges@[j].0@ == p);
            }
        }
        true
    }

    /// The nodes in an order that lists the source of every edge before its
    /// target, taking at each step the least ready label; `Cycle` exactly when
    /// no such order exists.
    pub fn execution_order(&self) -> (result: Result<Vec<NodeLabel>, RenderGraphError>)
        ensures
            result is Ok <==> self@.is_acyclic(),
            match result {
                Ok(order) => self@.is_least_ready_order(label_views(order@))
                    && self@.is_topological_order(label_views(order@)),
                Err(error) => error == RenderGraphError::Cycle,
            },
    {
        proof {
            use_type_invariant(self);
            self.lemma_view_edges_join_nodes();
        }
        let ghost g = self@;
        let ghost nv = label_views(self.nodes@);
        let n = self.nodes.len();
        let mut order: Vec<NodeLabel> = Vec::new();
        while order.len() < n
            invariant
                n == self.nodes@.len(),
                g == self@,
                nv == label_views(self.nodes@),
                nv.no_duplicates(),
                g.nodes == nv.to_set(),
                g.edges_join_nodes(),
                order@.len() <= n,
                forall|i: int|
                    0 <= i < order@.len() ==> g.is_ready(
                        label_views(order@).take(i),
                        #[trigger] label_views(order@)[i],
                    ),
                forall|i: int, y: Seq<char>|
                    #![trigger label_views(order@)[i], g.is_ready(label_views(order@).take(i), y)]
                    0 <= i < order@.len() && g.is_ready(label_views(order@).take(i), y) && y
                        != label_views(order@)[i] ==> chars_lt(label_views(order@)[i], y),
            decreases n - order@.len(),
        {
            let ghost ov = label_views(order@);
            let mut best: Option<usize> = None;
            let mut k: usize = 0;
            while k < n
                invariant
                    n == self.nodes@.len(),
                    nv == label_views(self.nodes@),
                    ov == label_views(order@),
                    0 <= k <= n,
                    match best {
                        None => forall|j: int| 0 <= j < k ==> !g.is_ready(ov, #[trigger] nv[j]),
                        Some(b) => b < k && g.is_ready(ov, nv[b as int]) && forall|j: int|
                            0 <= j < k && g.is_ready(ov, #[trigger] nv[j]) && nv[j] != nv[b as int]
                                ==> chars_lt(nv[b as int], nv[j]),
                    },
                    g == self@,
                    g.nodes == nv.to_set(),
                decreases n - k,
            {
                let candidate = &self.nodes[k];
                let ready = !Self::list_contains(&order, candidate) && self.predecessors_done(
                    candidate,
                    &order,
                );
                proof {
                    assert(nv[k as int] == candidate@);
                    assert(g.nodes.contains(nv[k as int]));
                    assert(ready == g.is_ready(ov, nv[k as int]));
                }
                if ready {
                    match best {
                        None => {
                            best = Some(k);
                        },
                        Some(b) => {
                            if label_less(candidate, &self.nodes[b]) {
                                proof {
                                    assert forall|j: int|
                                        0 <= j < k + 1 && g.is_ready(ov, #[trigger] nv[j]) && nv[j]
                                            != nv[k as int] implies chars_lt(nv[k as int], nv[j]) by {
                                        if nv[j] != nv[b as int] {
                                            lemma_chars_lt_transitive(
                                                nv[k as int],
                                                nv[b as int],
                                                nv[j],
                                            );
                                        }
                                    }
                                }
                                best = Some(k);
                            } else {
                                proof {
                                    if nv[k as int] != nv[b as int] {
                                        lemma_chars_lt_total(nv[k as int], nv[b as int]);
                                    }
                                }
                            }
                        },
                    }
                }
                k = k + 1;
            }
            match best {
                None => {
                    proof {
                        if order@.len() < n {
                            let stuck = Set::new(
                                |x: Seq<char>| g.nodes.contains(x) && !ov.contains(x),
                            );
                            assert forall|i: int| 0 <= i < ov.len() implies nv.contains(
                                #[trigger] ov[i],
                            ) by {
                                assert(g.is_ready(ov.take(i), ov[i]));
                            }
                            assert(ov.no_duplicates()) by {
                                assert forall|i: int, j: int|
                                    0 <= i < j < ov.len() implies ov[i] != ov[j] by {
                                    assert(g.is_ready(ov.take(j), ov[j]));
                                    assert(ov.take(j)[i] == ov[i]);
                                }
                            }
                            lemma_distinct_subseq_len(ov, nv);
                            let x0 = choose|x: Seq<char>| nv.contains(x) && !ov.contains(x);
                            assert(stuck.contains(x0));
                            assert forall|x: Seq<char>| #[trigger]
                                stuck.contains(x) implies exists|p: Seq<char>|
                                stuck.contains(p) && #[trigger] g.edges.contains((p, x)) by {
                                let j = choose|j: int| 0 <= j < nv.len() && nv[j] == x;
                                assert(!g.is_ready(ov, nv[j]));
                                let p = choose|p: Seq<char>|
                                    #[trigger] g.edges.contains((p, x)) && !ov.contains(p);
                                assert(stuck.contains(p));
                            }
                            lemma_stuck_set_is_cyclic(g, stuck, x0);
                        }
                    }
                    return Err(RenderGraphError::Cycle);
                },
                Some(b) => {
                    let ghost before = order@;
                    order.push(self.nodes[b].clone());
                    proof {
                        let nov = label_views(order@);
                        assert(nov =~= ov.push(nv[b as int]));
                        assert(nov.take(ov.len() as int) =~= ov);
                        assert forall|i: int| 0 <= i < ov.len() implies nov.take(i) =~= ov.take(
                            i,
                        ) by {}
                    }
                },
            }
        }
        proof {
            let ov = label_views(order@);
            assert forall|i: int| 0 <= i < ov.len() implies nv.contains(#[trigger] ov[i]) by {
                assert(g.is_ready(ov.take(i), ov[i]));
            }
            assert(ov.no_duplicates()) by {
                assert forall|i: int, j: int| 0 <= i < j < ov.len() implies ov[i] != ov[j] by {
                    assert(g.is_ready(ov.take(j), ov[j]));
                    assert(ov.take(j)[i] == ov[i]);
                }
            }
            lemma_distinct_subseq_len(ov, nv);
            assert forall|x: Seq<char>| g.nodes.contains(x) implies ov.contains(x) by {
                assert(nv.contains(x));
            }
            lemma_least_ready_is_topological(g, ov);
        }
        Ok(order)
    }
}

/// Whether `run_node` was handed a node with this label and came back: a
/// call of it on such a node ended.
pub open spec fn ran_label<F: FnMut(&NodeLabel)>(run_node: F, label: Seq<char>) -> bool {
    exists|node: &NodeLabel| node@ == label && #[trigger] call_ensures(run_node, (node,), ())
}

/// Runs the nodes of a render graph in execution order.
#[derive(Debug, Clone, Copy, Default)]
pub struct RenderGraphRunner;

impl RenderGraphRunner {
    pub fn new() -> (runner: Self) {
        RenderGraphRunner
    }

    /// Hands each label of the graph's execution order to `run_node`, in that
    /// order; refuses a cyclic graph before running anything.
    pub fn run<F: FnMut(&NodeLabel)>(&self, graph: &RenderGraph, mut run_node: F) -> (result:
        Result<(), RenderGraphError>)
        requires
            forall|state: F, label: &NodeLabel| call_requires(state, (label,)),
        ensures
            result is Ok <==> graph@.is_acyclic(),
            result matches Err(error) ==> error == RenderGraphError::Cycle,
            result is Ok ==> exists|order: Seq<Seq<char>>|
                {
                    &&& graph@.is_least_ready_order(order)
                    &&& graph@.is_topological_order(order)
                    &&& forall|i: int| 0 <= i < order.len() ==> ran_label(run_node, #[trigger] order[i])
                },
    {
        let ghost original = run_node;
        let order = graph.execution_order()?;
        let ghost labels = label_views(order@);
        let mut i: usize = 0;
        while i < order.len()
            invariant
                0 <= i <= order@.len(),
                run_node == original,
                labels == label_views(order@),
                forall|k: int| 0 <= k < i ==> ran_label(run_node, #[trigger] labels[k]),
                forall|state: F, label: &NodeLabel| call_requires(state, (label,)),
            decreases order@.len() - i,
        {
            let node = &order[i];
            run_node(node);
            assert(call_ensures(run_node, (node,), ()));
            assert(labels[i as int] == node@);
            i = i + 1;
        }
        Ok(())
    }
}

/// The pass of each node by label: each label once, in the order added.
pub struct RenderGraphPasses<P> {
    passes: Vec<(NodeLabel, P)>,
}

/// The labels of passes, in order.
pub open spec fn pass_labels<P>(passes: Seq<(NodeLabel, P)>) -> Seq<Seq<char>> {
    passes.map_values(|entry: (NodeLabel, P)| entry.0@)
}

impl<P> View for RenderGraphPasses<P> {
    type V = Seq<Seq<char>>;

    closed spec fn view(&self) -> Seq<Seq<char>> {
        pass_labels(self.passes@)
    }
}

impl<P> RenderGraphPasses<P> {
    /// The passes, in the order of their labels.
    pub closed spec fn pass_values(&self) -> Seq<P> {
        self.passes@.map_values(|entry: (NodeLabel, P)| entry.1)
    }
}

/// The passes to run for a graph: its execution order, the index of the
/// pass of each label in order up to the first label without one, and that
/// label's position in the order, if any.
pub struct PassSchedule {
    pub order: Vec<NodeLabel>,
    pub passes: Vec<usize>,
    pub missing: Option<usize>,
}

impl<P> RenderGraphPasses<P> {
    /// No passes.
    pub fn new() -> (passes: RenderGraphPasses<P>)
        ensures
            passes@ == Seq::<Seq<char>>::empty(),
            passes.pass_values() == Seq::<P>::empty(),
    {
        let passes = RenderGraphPasses { passes: Vec::new() };
        assert(passes@ =~= Seq::<Seq<char>>::empty());
        assert(passes.pass_values() =~= Seq::<P>::empty());
        passes
    }

    fn position(&self, label: &NodeLabel) -> (found: Option<usize>)
        ensures
            match found {
                Some(i) => i < self@.len() && self@[i as int] == label@,
                None => !self@.contains(label@),
            },
    {
        let mut i: usize = 0;
        while i < self.passes.len()
            invariant
                i <= self.passes@.len(),
                forall|j: int| 0 <= j < i ==> pass_labels(self.passes@)[j] != label@,
            decreases self.passes@.len() - i,
        {
            assert(pass_labels(self.passes@)[i as int] == self.passes@[i as int].0@);
            if same_label(&self.passes[i].0, label) {
                return Some(i);
            }
            i = i + 1;
        }
        None
    }

    /// The number of passes.
    pub fn len(&self) -> (count: usize)
        ensures
            count == self@.len(),
    {
        self.passes.len()
    }

    /// Whether a label has a pass.
    pub fn contains(&self, label: &str) -> (present: bool)
        ensures
            present == self@.contains(label@),
    {
        let label = NodeLabel::new(label);
        self.position(&label).is_some()
    }

    /// Adds the pass of a label; a second pass for a label is refused.
    pub fn add(&mut self, label: &str, pass: P) -> (result: Result<(), RenderGraphError>)
        ensures
            old(self)@.contains(label@) ==> (result matches Err(RenderGraphError::DuplicatePass(l)) && l@ == label@
                && final(self)@ == old(self)@ && final(self).pass_values() == old(self).pass_values()),
            !old(self)@.contains(label@) ==> (result is Ok && final(self)@ == old(self)@.push(label@)
                && final(self).pass_values() == old(self).pass_values().push(pass)),
    {
        let node = NodeLabel::new(label);
        if self.position(&node).is_some() {
            return Err(RenderGraphError::DuplicatePass(node));
        }
        let ghost before = self.passes@;
        let ghost added = pass;
        self.passes.push((node, pass));
        assert(pass_labels(self.passes@) =~= pass_labels(before).push(label@));
        assert(self.pass_values() =~= before.map_values(|entry: (NodeLabel, P)| entry.1).push(added));
        Ok(())
    }

    /// The pass at an index of the schedule, for the caller to run.
    pub fn pass_mut(&mut self, index: usize) -> (pass: &mut P)
        requires
            index < old(self)@.len(),
        ensures
            *pass == old(self).pass_values()[index as int],
            final(self)@ == old(self)@,
            final(self).pass_values() == old(self).pass_values().update(index as int, *final(pass)),
    {
        &mut self.passes[index].1
    }

    /// The passes to run for a graph: `Cycle` for a cyclic graph; otherwise
    /// the execution order, the pass of each label in order up to the first
    /// label that has none, and where that label stands.
    pub fn schedule(&self, graph: &RenderGraph) -> (result: Result<PassSchedule, RenderGraphError>)
        ensures
            result is Ok <==> graph@.is_acyclic(),
            match result {
                Ok(schedule) => {
                    let order = label_views(schedule.order@);
                    &&& graph@.is_least_ready_order(order) && graph@.is_topological_order(order)
                    &&& schedule.passes@.len() <= order.len()
                    &&& forall|k: int|
                        0 <= k < schedule.passes@.len() ==> #[trigger] schedule.passes@[k] < self@.len()
                            && self@[schedule.passes@[k] as int] == order[k]
                    &&& match schedule.missing {
                        Some(m) => m == schedule.passes@.len() && m < order.len() && !self@.contains(order[m as int]),
                        None => schedule.passes@.len() == order.len(),
                    }
                },
                Err(error) => error == RenderGraphError::Cycle,
            },
    {
        let order = match graph.execution_order() {
            Ok(order) => order,
            Err(error) => return Err(error),
        };
        let mut indices: Vec<usize> = Vec::new();
        let mut k: usize = 0;
        while k < order.len()
            invariant
                k <= order@.len(),
                graph@.is_acyclic(),
                graph@.is_least_ready_order(label_views(order@)),
                graph@.is_topological_order(label_views(order@)),
                indices@.len() == k,
                forall|j: int|
                    0 <= j < k ==> #[trigger] indices@[j] < self@.len() && self@[indices@[j] as int] == order@[j]@,
            decreases order@.len() - k,
        {
            match self.position(&order[k]) {
                Some(index) => {
                    indices.push(index);
                },
                None => {
                    return Ok(PassSchedule { order, passes: indices, missing: Some(k) });
                },
            }
            k = k + 1;
        }
        Ok(PassSchedule { order, passes: indices, missing: None })
    }
}

/// The frame graph: reset, then world extraction, then UI extraction, then the
/// game's own rendering.
pub fn default_frame_render_graph() -> (graph: RenderGraph)
    ensures
        graph@.nodes == set!["reset"@, "extract_world"@, "extract_ui"@, "user_render"@],
        graph@.edges == set![
            ("reset"@, "extract_world"@),
            ("extract_world"@, "extract_ui"@),
            ("extract_ui"@, "user_render"@),
        ],
        graph@.edges_join_nodes(),
{
    proof {
        reveal_strlit("reset");
        reveal_strlit("extract_world");
        reveal_strlit("extract_ui");
        reveal_strlit("user_render");
        assert("reset"@.len() == 5);
        assert("extract_world"@.len() == 13);
        assert("extract_ui"@.len() == 10);
        assert("user_render"@.len() == 11);
        assert("reset"@ != "extract_world"@);
        assert("reset"@ != "extract_ui"@);
        assert("reset"@ != "user_render"@);
        assert("extract_world"@ != "extract_ui"@);
        assert("extract_world"@ != "user_render"@);
        assert("extract_ui"@ != "user_render"@);
    }
    let mut graph = RenderGraph::new();
    let added = graph.add_node("reset");
    assert(added is Ok);
    let added = graph.add_node("extract_world");
    assert(added is Ok);
    let added = graph.add_node("extract_ui");
    assert(added is Ok);
    let added = graph.add_node("user_render");
    assert(added is Ok);
    let linked = graph.add_node_edge("reset", "extract_world");
    assert(linked is Ok);
    let linked = graph.add_node_edge("extract_world", "extract_ui");
    assert(linked is Ok);
    let linked = graph.add_node_edge("extract_ui", "user_render");
    assert(linked is Ok);
    assert(graph@.nodes =~= set!["reset"@, "extract_world"@, "extract_ui"@, "user_render"@]);
    assert(graph@.edges =~= set![
        ("reset"@, "extract_world"@),
        ("extract_world"@, "extract_ui"@),
        ("extract_ui"@, "user_render"@),
    ]);
    graph
}

impl Default for RenderGraph {
    fn default() -> (graph: Self)
        ensures
            graph@.nodes == Set::<Seq<char>>::empty(),
            graph@.edges == Set::<(Seq<char>, Seq<char>)>::empty(),
    {
        RenderGraph::new()
    }
}

} // verus!
