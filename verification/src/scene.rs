//! The part of a parsed vector template that rendering reads and writes: nodes
//! in document order, each with its identifier, its parent and, for text and
//! group nodes, the fields that are patched.

use crate::scalar::Scalar;
use vstd::prelude::*;

verus! {

/// What a node holds, by kind.
#[derive(Debug)]
pub enum Content {
    /// A text node and the text of each of its chunks.
    Text { chunks: Vec<String> },
    /// A group node, its opacity and the vertical scale of its transform.
    Group { opacity: Scalar, scale_y: Scalar },
    /// Any other kind of node.
    Other,
}

/// One node of the document.
#[derive(Debug)]
pub struct SceneNode {
    pub id: String,
    /// Position of the parent node, `None` for the root.
    pub parent: Option<usize>,
    pub content: Content,
}

/// A document as a list of nodes in document order, parents before their
/// children.
#[derive(Debug)]
pub struct Scene {
    pub nodes: Vec<SceneNode>,
}

/// How a template can break the contract between it and the renderer.
#[derive(Clone, Copy, Debug, PartialEq, Eq, Structural)]
pub enum Fault {
    /// No node carries the identifier.
    MissingNode,
    /// The node is not a text node.
    NotText,
    /// The node, or a child of it that should be a bar, is not a group node.
    NotGroup,
    /// The text node has too few chunks.
    MissingChunk,
    /// The node has more bars than there are values.
    MissingValue,
}

/// A template that does not fit the renderer, with the identifier that was
/// being patched.
#[derive(Debug)]
pub struct TemplateContractError {
    pub fault: Fault,
    pub node_id: String,
}

/// What a node holds, with texts as character sequences.
pub enum ContentView {
    Text { chunks: Seq<Seq<char>> },
    Group { opacity: Scalar, scale_y: Scalar },
    Other,
}

/// One node of a document as contracts speak of it.
pub struct NodeView {
    pub id: Seq<char>,
    pub parent: Option<usize>,
    pub content: ContentView,
}

/// A broken template contract as contracts speak of it.
pub struct ErrorView {
    pub fault: Fault,
    pub node_id: Seq<char>,
}

impl View for Content {
    type V = ContentView;

    open spec fn view(&self) -> ContentView {
        match *self {
            Content::Text { chunks } => ContentView::Text {
                chunks: Seq::new(chunks.len() as nat, |i: int| chunks[i]@),
            },
            Content::Group { opacity, scale_y } => ContentView::Group { opacity, scale_y },
            Content::Other => ContentView::Other,
        }
    }
}

impl View for SceneNode {
    type V = NodeView;

    open spec fn view(&self) -> NodeView {
        NodeView { id: self.id@, parent: self.parent, content: self.content@ }
    }
}

impl View for Scene {
    type V = Seq<NodeView>;

    open spec fn view(&self) -> Seq<NodeView> {
        Seq::new(self.nodes.len() as nat, |i: int| self.nodes[i]@)
    }
}

impl View for TemplateContractError {
    type V = ErrorView;

    open spec fn view(&self) -> ErrorView {
        ErrorView { fault: self.fault, node_id: self.node_id@ }
    }
}

/// A document after patching, or the reason it could not be patched.
pub type Patched = Result<Seq<NodeView>, ErrorView>;

/// The first position at or after `from` whose node carries `id`.
pub open spec fn position_from(m: Seq<NodeView>, id: Seq<char>, from: int) -> Option<int>
    decreases m.len() - from,
{
    if from < 0 || from >= m.len() {
        None
    } else if m[from].id == id {
        Some(from)
    } else {
        position_from(m, id, from + 1)
    }
}

/// The first node in document order that carries `id`. The empty identifier
/// names no node, even where a node carries it.
pub open spec fn node_by_id(m: Seq<NodeView>, id: Seq<char>) -> Option<int> {
    if id.len() == 0 {
        None
    } else {
        position_from(m, id, 0)
    }
}

/// The failure of a patch of the node `id`.
pub open spec fn fault_at(fault: Fault, id: Seq<char>) -> Patched {
    Err(ErrorView { fault, node_id: id })
}

/// The node with the text of one chunk replaced.
pub open spec fn node_with_text(node: NodeView, chunk: int, text: Seq<char>) -> NodeView {
    match node.content {
        ContentView::Text { chunks } => NodeView {
            id: node.id,
            parent: node.parent,
            content: ContentView::Text { chunks: chunks.update(chunk, text) },
        },
        _ => node,
    }
}

/// The node with its opacity set to zero.
pub open spec fn node_hidden(node: NodeView) -> NodeView {
    match node.content {
        ContentView::Group { opacity, scale_y } => NodeView {
            id: node.id,
            parent: node.parent,
            content: ContentView::Group { opacity: Scalar { bits: 0 }, scale_y },
        },
        _ => node,
    }
}

/// The node with the vertical scale of its transform replaced.
pub open spec fn node_scaled(node: NodeView, value: Scalar) -> NodeView {
    match node.content {
        ContentView::Group { opacity, scale_y } => NodeView {
            id: node.id,
            parent: node.parent,
            content: ContentView::Group { opacity, scale_y: value },
        },
        _ => node,
    }
}

/// Sets the text of chunk `chunk` of the text node `id`; every other node and
/// chunk stays as it is.
pub open spec fn with_text(m: Seq<NodeView>, id: Seq<char>, chunk: int, text: Seq<char>) -> Patched {
    match node_by_id(m, id) {
        None => fault_at(Fault::MissingNode, id),
        Some(i) => match m[i].content {
            ContentView::Text { chunks } => if 0 <= chunk < chunks.len() {
                Ok(m.update(i, node_with_text(m[i], chunk, text)))
            } else {
                fault_at(Fault::MissingChunk, id)
            },
            _ => fault_at(Fault::NotText, id),
        },
    }
}

/// Makes the group node `id` fully transparent.
pub open spec fn with_hidden(m: Seq<NodeView>, id: Seq<char>) -> Patched {
    match node_by_id(m, id) {
        None => fault_at(Fault::MissingNode, id),
        Some(i) => match m[i].content {
            ContentView::Group { .. } => Ok(m.update(i, node_hidden(m[i]))),
            _ => fault_at(Fault::NotGroup, id),
        },
    }
}

/// Whether node `j` is a child of node `p`.
pub open spec fn is_child(m: Seq<NodeView>, p: int, j: int) -> bool {
    0 <= j < m.len() && m[j].parent == Some(p as usize)
}

/// How many children of `p` stand before position `j`.
pub open spec fn siblings_before(m: Seq<NodeView>, p: int, j: int) -> nat
    decreases j,
{
    if j <= 0 {
        0
    } else {
        siblings_before(m, p, j - 1) + if is_child(m, p, j - 1) {
            1nat
        } else {
            0nat
        }
    }
}

/// Whether child `j` of `p` cannot take a value: it is no group, or there are
/// fewer than `count` values before it.
pub open spec fn bar_offends(m: Seq<NodeView>, p: int, count: int, j: int) -> bool {
    is_child(m, p, j) && (!(m[j].content is Group) || siblings_before(m, p, j) >= count)
}

/// The first position at or after `from` that offends.
pub open spec fn first_offender(m: Seq<NodeView>, p: int, count: int, from: int) -> Option<int>
    decreases m.len() - from,
{
    if from < 0 || from >= m.len() {
        None
    } else if bar_offends(m, p, count, from) {
        Some(from)
    } else {
        first_offender(m, p, count, from + 1)
    }
}

/// Gives the children of node `id`, in document order, the vertical scales
/// `values[0]`, `values[1]`, and so on. Every child must be a group and have
/// a value; values beyond the last child are left unused.
pub open spec fn with_bars(m: Seq<NodeView>, id: Seq<char>, values: Seq<Scalar>) -> Patched {
    match node_by_id(m, id) {
        None => fault_at(Fault::MissingNode, id),
        Some(p) => match first_offender(m, p, values.len() as int, 0) {
            Some(j) => if m[j].content is Group {
                fault_at(Fault::MissingValue, id)
            } else {
                fault_at(Fault::NotGroup, id)
            },
            None => Ok(
                Seq::new(
                    m.len(),
                    |j: int|
                        if is_child(m, p, j) {
                            node_scaled(m[j], values[siblings_before(m, p, j) as int])
                        } else {
                            m[j]
                        },
                ),
            ),
        },
    }
}

fn fault(kind: Fault, id: &str) -> (e: TemplateContractError)
    ensures
        e@ == (ErrorView { fault: kind, node_id: id@ }),
{
    TemplateContractError { fault: kind, node_id: id.to_owned() }
}

impl Scene {
    /// Finds the first node that carries `id`.
    pub fn node_by_id(&self, id: &str) -> (r: Option<usize>)
        ensures
            match r {
                Some(i) => node_by_id(self@, id@) == Some(i as int) && i < self.nodes.len(),
                None => node_by_id(self@, id@) is None,
            },
    {
        if id.is_empty() {
            return None;
        }
        let key: String = id.to_owned();
        let mut i: usize = 0;
        while i < self.nodes.len()
            invariant
                i <= self.nodes.len(),
                key@ == id@,
                id@.len() > 0,
                position_from(self@, id@, 0) == position_from(self@, id@, i as int),
            decreases self.nodes.len() - i,
        {
            assert(self@[i as int].id == self.nodes[i as int].id@);
            if self.nodes[i].id == key {
                return Some(i);
            }
            i = i + 1;
        }
        None
    }

    /// Replaces the text of one chunk of a text node. On failure the document
    /// is left untouched.
    pub fn modify_node_text(&mut self, node_id: &str, chunk: usize, text: String) -> (r: Result<
        (),
        TemplateContractError,
    >)
        ensures
            match r {
                Ok(()) => with_text(old(self)@, node_id@, chunk as int, text@) == Ok::<
                    Seq<NodeView>,
                    ErrorView,
                >(final(self)@),
                Err(e) => with_text(old(self)@, node_id@, chunk as int, text@) == Err::<
                    Seq<NodeView>,
                    ErrorView,
                >(e@) && final(self)@ == old(self)@,
            },
    {
        let found = self.node_by_id(node_id);
        let i: usize = match found {
            Some(i) => i,
            None => {
                return Err(fault(Fault::MissingNode, node_id));
            },
        };
        let ghost m = self@;
        let node = &mut self.nodes[i];
        match &mut node.content {
            Content::Text { chunks } => {
                if chunk < chunks.len() {
                    let ghost before = chunks@;
                    chunks[chunk] = text;
                    proof {
                        assert(node.content@ =~= (ContentView::Text {
                            chunks: m[i as int].content->Text_chunks.update(chunk as int, text@),
                        })) by {
                            assert(Seq::new(chunks.len() as nat, |k: int| chunks[k]@)
                                =~= m[i as int].content->Text_chunks.update(chunk as int, text@));
                        }
                    }
                } else {
                    return Err(fault(Fault::MissingChunk, node_id));
                }
            },
            _ => {
                return Err(fault(Fault::NotText, node_id));
            },
        }
        proof {
            assert(self@ =~= m.update(i as int, node_with_text(m[i as int], chunk as int, text@)));
        }
        Ok(())
    }

    /// Makes a group node fully transparent. On failure the document is left
    /// untouched.
    pub fn hide_group(&mut self, node_id: &str) -> (r: Result<(), TemplateContractError>)
        ensures
            match r {
                Ok(()) => with_hidden(old(self)@, node_id@) == Ok::<Seq<NodeView>, ErrorView>(
                    final(self)@,
                ),
                Err(e) => with_hidden(old(self)@, node_id@) == Err::<Seq<NodeView>, ErrorView>(e@)
                    && final(self)@ == old(self)@,
            },
    {
        let found = self.node_by_id(node_id);
        let i: usize = match found {
            Some(i) => i,
            None => {
                return Err(fault(Fault::MissingNode, node_id));
            },
        };
        let ghost m = self@;
        let node = &mut self.nodes[i];
        match &mut node.content {
            Content::Group { opacity, .. } => {
                *opacity = Scalar::zero();
            },
            _ => {
                return Err(fault(Fault::NotGroup, node_id));
            },
        }
        proof {
            assert(self@ =~= m.update(i as int, node_hidden(m[i as int])));
        }
        Ok(())
    }
}

/// Where no position from `from` on offends, none of them does.
pub proof fn lemma_no_offender(m: Seq<NodeView>, p: int, count: int, from: int, k: int)
    requires
        0 <= from <= k < m.len(),
        first_offender(m, p, count, from) is None,
    ensures
        !bar_offends(m, p, count, k),
    decreases k - from,
{
    if from < k {
        lemma_no_offender(m, p, count, from + 1, k);
    }
}

impl Scene {
    /// Gives the children of a node, in document order, the vertical scales
    /// `values[0]`, `values[1]`, and so on. On failure the document is left
    /// untouched.
    #[verifier::loop_isolation(false)]
    pub fn scale_children(&mut self, node_id: &str, values: &Vec<Scalar>) -> (r: Result<
        (),
        TemplateContractError,
    >)
        ensures
            match r {
                Ok(()) => with_bars(old(self)@, node_id@, values@) == Ok::<
                    Seq<NodeView>,
                    ErrorView,
                >(final(self)@),
                Err(e) => with_bars(old(self)@, node_id@, values@) == Err::<
                    Seq<NodeView>,
                    ErrorView,
                >(e@) && final(self)@ == old(self)@,
            },
    {
        let found = self.node_by_id(node_id);
        let p: usize = match found {
            Some(p) => p,
            None => {
                return Err(fault(Fault::MissingNode, node_id));
            },
        };
        let ghost m = self@;
        let ghost count = values.len() as int;
        let total: usize = self.nodes.len();
        let mut j: usize = 0;
        let mut seen: usize = 0;
        while j < total
            invariant
                j <= total,
                total == self.nodes.len(),
                self@ == m,
                count == values.len(),
                seen == siblings_before(m, p as int, j as int),
                seen <= j,
                first_offender(m, p as int, count, 0) == first_offender(m, p as int, count, j as int),
            decreases total - j,
        {
            let child: bool = match self.nodes[j].parent {
                Some(q) => q == p,
                None => false,
            };
            assert(child == is_child(m, p as int, j as int));
            if child {
                match &self.nodes[j].content {
                    Content::Group { .. } => {
                        if seen >= values.len() {
                            return Err(fault(Fault::MissingValue, node_id));
                        }
                    },
                    _ => {
                        return Err(fault(Fault::NotGroup, node_id));
                    },
                }
                seen = seen + 1;
            }
            j = j + 1;
        }
        assert(first_offender(m, p as int, count, 0) is None);
        j = 0;
        seen = 0;
        while j < total
            invariant
                j <= total,
                total == self.nodes.len(),
                total == m.len(),
                count == values.len(),
                first_offender(m, p as int, count, 0) is None,
                seen == siblings_before(m, p as int, j as int),
                seen <= j,
                self@ == Seq::new(
                    m.len(),
                    |k: int|
                        if k < j && is_child(m, p as int, k) {
                            node_scaled(m[k], values[siblings_before(m, p as int, k) as int])
                        } else {
                            m[k]
                        },
                ),
            decreases total - j,
        {
            let ghost before = self@;
            let ghost before_nodes = self.nodes@;
            let child: bool = match self.nodes[j].parent {
                Some(q) => q == p,
                None => false,
            };
            assert(before[j as int] == m[j as int]);
            assert(child == is_child(m, p as int, j as int));
            if child {
                proof {
                    lemma_no_offender(m, p as int, count, 0, j as int);
                }
                let value: Scalar = values[seen];
                let node = &mut self.nodes[j];
                match &mut node.content {
                    Content::Group { scale_y, .. } => {
                        *scale_y = value;
                    },
                    _ => {},
                }
                seen = seen + 1;
                assert(self@[j as int] == node_scaled(m[j as int], value));
            }
            j = j + 1;
            proof {
                let target = Seq::new(
                    m.len(),
                    |k: int|
                        if k < j && is_child(m, p as int, k) {
                            node_scaled(m[k], values[siblings_before(m, p as int, k) as int])
                        } else {
                            m[k]
                        },
                );
                assert(self@.len() == target.len());
                assert forall|k: int| 0 <= k < m.len() implies self@[k] == target[k] by {
                    if k != j - 1 {
                        assert(self.nodes[k] == before_nodes[k]);
                        assert(self@[k] == before[k]);
                    }
                }
                assert(self@ =~= target);
            }
        }
        assert(self@ =~= Seq::new(
            m.len(),
            |k: int|
                if is_child(m, p as int, k) {
                    node_scaled(m[k], values[siblings_before(m, p as int, k) as int])
                } else {
                    m[k]
                },
        ));
        Ok(())
    }
}

} // verus!
