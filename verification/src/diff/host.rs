//! What the mutations mean: a model of the host tree and of the renderer
//! that applies mutations to it, and the proof that the mutations written
//! for a tree of host nodes build that tree, and that those written by a
//! diff in place patch it.
//!
//! - Creation: `lemma_create_builds`, `lemma_rebuild_builds`.
//! - Patching: `lemma_diff_patches`, `lemma_diff_scope_patches`.
//! - What a diff in place writes: `lemma_diff_writes_patches`,
//!   `lemma_diff_scope_writes_patches`, `lemma_one_change_one_patch`,
//!   `lemma_distinct_names_set_changed_only`.

use crate::diff::model::Pass;
use crate::mutations::Mutation;
use crate::nodes::{AnyProps, Attribute, ElementId, ElementRef, RenderReturn, VNode};
use vstd::prelude::*;

verus! {

/// A node of the host tree: an element with its tag, or a text.
pub struct HostNode {
    pub tag: Option<Seq<char>>,
    pub text: Seq<char>,
    pub attrs: Map<Seq<char>, Seq<char>>,
    pub children: Seq<ElementId>,
}

/// The renderer: the nodes it has made, and its stack of nodes that
/// await their place.
pub struct Host {
    pub nodes: Map<ElementId, HostNode>,
    pub stack: Seq<ElementId>,
}

/// The children `children` with every `id` among them replaced by the
/// nodes `by`.
pub open spec fn replaced(children: Seq<ElementId>, id: ElementId, by: Seq<ElementId>) -> Seq<
    ElementId,
>
    decreases children.len(),
{
    if children.len() == 0 {
        children
    } else {
        replaced(children.drop_last(), id, by) + if children.last() == id {
            by
        } else {
            seq![children.last()]
        }
    }
}

impl Host {
    /// The renderer before any mutation: it has the root of the host
    /// tree, which is node 0.
    pub open spec fn initial() -> Host {
        Host {
            nodes: Map::empty().insert(
                ElementId(0),
                HostNode {
                    tag: None,
                    text: Seq::empty(),
                    attrs: Map::empty(),
                    children: Seq::empty(),
                },
            ),
            stack: Seq::empty(),
        }
    }

    /// The top `m` nodes of the stack, oldest first.
    pub open spec fn top(self, m: usize) -> Seq<ElementId> {
        self.stack.subrange(self.stack.len() - m, self.stack.len() as int)
    }

    /// The stack without its top `m` nodes.
    pub open spec fn below(self, m: usize) -> Seq<ElementId> {
        self.stack.subrange(0, self.stack.len() - m)
    }

    /// The renderer after it applied one mutation. A mutation that
    /// names a node the renderer has not, or takes more nodes than the
    /// stack holds, does nothing. A node that is removed or replaced
    /// leaves the children of every node; what hung under it hangs
    /// nowhere.
    pub open spec fn apply(self, mutation: Mutation) -> Host {
        match mutation {
            Mutation::CreateElement { tag, id } => Host {
                nodes: self.nodes.insert(
                    id,
                    HostNode {
                        tag: Some(tag@),
                        text: Seq::empty(),
                        attrs: Map::empty(),
                        children: Seq::empty(),
                    },
                ),
                stack: self.stack.push(id),
            },
            Mutation::CreateTextNode { value, id } => Host {
                nodes: self.nodes.insert(
                    id,
                    HostNode {
                        tag: None,
                        text: value@,
                        attrs: Map::empty(),
                        children: Seq::empty(),
                    },
                ),
                stack: self.stack.push(id),
            },
            Mutation::SetAttribute { name, value, id } => if self.nodes.contains_key(id) {
                Host {
                    nodes: self.nodes.insert(
                        id,
                        HostNode {
                            attrs: self.nodes[id].attrs.insert(name@, value@),
                            ..self.nodes[id]
                        },
                    ),
                    ..self
                }
            } else {
                self
            },
            Mutation::SetText { value, id } => if self.nodes.contains_key(id) {
                Host {
                    nodes: self.nodes.insert(id, HostNode { text: value@, ..self.nodes[id] }),
                    ..self
                }
            } else {
                self
            },
            Mutation::AppendChildren { id, m } => if self.nodes.contains_key(id) && m
                <= self.stack.len() {
                Host {
                    nodes: self.nodes.insert(
                        id,
                        HostNode {
                            children: self.nodes[id].children + self.top(m),
                            ..self.nodes[id]
                        },
                    ),
                    stack: self.below(m),
                }
            } else {
                self
            },
            Mutation::Remove { id } => Host {
                nodes: Map::new(
                    |k: ElementId| self.nodes.contains_key(k) && k != id,
                    |k: ElementId|
                        HostNode {
                            children: replaced(self.nodes[k].children, id, Seq::empty()),
                            ..self.nodes[k]
                        },
                ),
                ..self
            },
            Mutation::ReplaceWith { id, m } => if m <= self.stack.len() {
                Host {
                    nodes: Map::new(
                        |k: ElementId| self.nodes.contains_key(k) && k != id,
                        |k: ElementId|
                            HostNode {
                                children: replaced(self.nodes[k].children, id, self.top(m)),
                                ..self.nodes[k]
                            },
                    ),
                    stack: self.below(m),
                }
            } else {
                self
            },
        }
    }

    /// The renderer after it applied the mutations `edits`, in order.
    pub open spec fn run(self, edits: Seq<Mutation>) -> Host
        decreases edits.len(),
    {
        if edits.len() == 0 {
            self
        } else {
            self.run(edits.drop_last()).apply(edits.last())
        }
    }

    /// Every node that `self` has, `after` has as it is in `self`.
    pub open spec fn kept_in(self, after: Host) -> bool {
        forall|id: ElementId| #[trigger]
            self.nodes.contains_key(id) ==> after.nodes.contains_key(id) && after.nodes[id]
                == self.nodes[id]
    }
}

/// The attributes of an element as the host has them after the first `n`
/// of `attrs` were set in order.
pub open spec fn attr_map(attrs: Seq<Attribute>, n: int) -> Map<Seq<char>, Seq<char>>
    decreases n,
{
    if n <= 0 {
        Map::empty()
    } else {
        attr_map(attrs, n - 1).insert(attrs[n - 1].name@, attrs[n - 1].value@)
    }
}

/// The host nodes that stand for the trees `children[i..]`, mounted one
/// after the other from position `idx` of the mount on.
pub open spec fn roots_from<P>(children: Seq<VNode<P>>, i: int, nodes: Seq<usize>, idx: int) -> Seq<
    ElementId,
>
    decreases children.len() - i,
{
    if 0 <= i < children.len() {
        seq![ElementId(nodes[idx])] + roots_from(
            children,
            i + 1,
            nodes,
            idx + crate::diff::laws::size(children[i]),
        )
    } else {
        Seq::empty()
    }
}

/// The host shows the tree of host nodes `node`, mounted from position
/// `idx` of the mount on: the host node of each of its nodes has its
/// tag or text, its attributes, and the host nodes of its children, in
/// order.
pub open spec fn shows<P>(host: Host, node: VNode<P>, nodes: Seq<usize>, idx: int) -> bool
    decreases node,
{
    &&& 0 <= idx < nodes.len()
    &&& host.nodes.contains_key(ElementId(nodes[idx]))
    &&& match node {
        VNode::Text { text } => host.nodes[ElementId(nodes[idx])] == (HostNode {
            tag: None,
            text: text@,
            attrs: Map::empty(),
            children: Seq::empty(),
        }),
        VNode::Element { tag, attrs, children } => {
            &&& host.nodes[ElementId(nodes[idx])] == (HostNode {
                tag: Some(tag@),
                text: Seq::empty(),
                attrs: attr_map(attrs@, attrs@.len() as int),
                children: roots_from(children@, 0, nodes, idx + 1),
            })
            &&& shows_from(host, children@, 0, nodes, idx + 1)
        },
        VNode::Component(component) => false,
    }
}

/// The host shows the trees `children[i..]`, mounted one after the other
/// from position `idx` of the mount on.
pub open spec fn shows_from<P>(
    host: Host,
    children: Seq<VNode<P>>,
    i: int,
    nodes: Seq<usize>,
    idx: int,
) -> bool
    decreases children, children.len() - i,
{
    if 0 <= i < children.len() {
        &&& shows(host, children[i], nodes, idx)
        &&& shows_from(
            host,
            children,
            i + 1,
            nodes,
            idx + crate::diff::laws::size(children[i]),
        )
    } else {
        true
    }
}

impl<T, P> Pass<T, P> {
    /// The host tree as the mutations written so far have made it.
    pub open spec fn host(self) -> Host {
        Host::initial().run(self.edits)
    }

    /// Every node that the host has is in use in the dom: no id of a
    /// host node is handed out again.
    pub open spec fn host_in_use(self) -> bool {
        forall|id: ElementId| #[trigger]
            self.host().nodes.contains_key(id) ==> self.dom.elements.in_use(id)
    }
}

/// Applying one more mutation continues the run.
pub proof fn lemma_run_push(host: Host, edits: Seq<Mutation>, mutation: Mutation)
    ensures
        host.run(edits.push(mutation)) == host.run(edits).apply(mutation),
{
    assert(edits.push(mutation).drop_last() =~= edits);
}

/// Setting the attributes of a new element, in order, leaves it with
/// those attributes; nothing else changes.
pub proof fn lemma_run_set_attributes(
    host: Host,
    base: Seq<Mutation>,
    attrs: Seq<Attribute>,
    id: ElementId,
    k: int,
)
    requires
        0 <= k <= attrs.len(),
        host.run(base).nodes.contains_key(id),
        host.run(base).nodes[id].attrs == Map::<Seq<char>, Seq<char>>::empty(),
    ensures
        ({
            let set = host.run(
                base + Seq::new(
                    k as nat,
                    |i: int|
                        Mutation::SetAttribute { name: attrs[i].name, value: attrs[i].value, id },
                ),
            );
            &&& set.stack == host.run(base).stack
            &&& set.nodes == host.run(base).nodes.insert(
                id,
                HostNode { attrs: attr_map(attrs, k), ..host.run(base).nodes[id] },
            )
        }),
    decreases k,
{
    let made = |i: int| Mutation::SetAttribute { name: attrs[i].name, value: attrs[i].value, id };
    if k == 0 {
        assert(base + Seq::new(0nat, made) =~= base);
        assert(host.run(base).nodes =~= host.run(base).nodes.insert(
            id,
            HostNode { attrs: attr_map(attrs, 0), ..host.run(base).nodes[id] },
        ));
    } else {
        lemma_run_set_attributes(host, base, attrs, id, k - 1);
        let before = base + Seq::new((k - 1) as nat, made);
        assert(base + Seq::new(k as nat, made) =~= before.push(made(k - 1)));
        lemma_run_push(host, before, made(k - 1));
        let set = host.run(base + Seq::new(k as nat, made));
        assert(set.nodes =~= host.run(base).nodes.insert(
            id,
            HostNode { attrs: attr_map(attrs, k), ..host.run(base).nodes[id] },
        ));
    }
}

/// As many host nodes stand for the children as there are children.
pub proof fn lemma_roots_len<P>(children: Seq<VNode<P>>, i: int, nodes: Seq<usize>, idx: int)
    requires
        0 <= i <= children.len(),
    ensures
        roots_from(children, i, nodes, idx).len() == children.len() - i,
    decreases children.len() - i,
{
    if i < children.len() {
        lemma_roots_len(children, i + 1, nodes, idx + crate::diff::laws::size(children[i]));
    }
}

/// What the host shows of a tree goes by the host nodes of the tree and
/// by its entries in the mount, and by nothing else.
pub proof fn lemma_shows_kept<P>(
    host: Host,
    other: Host,
    node: VNode<P>,
    nodes: Seq<usize>,
    others: Seq<usize>,
    idx: int,
)
    requires
        shows(host, node, nodes, idx),
        idx + crate::diff::laws::size(node) <= nodes.len(),
        idx + crate::diff::laws::size(node) <= others.len(),
        forall|j: int|
            idx <= j < idx + crate::diff::laws::size(node) ==> #[trigger] others[j] == nodes[j]
                && other.nodes.contains_key(ElementId(nodes[j])) && other.nodes[ElementId(
                nodes[j],
            )] == host.nodes[ElementId(nodes[j])],
    ensures
        shows(other, node, others, idx),
    decreases node,
{
    match node {
        VNode::Text { text } => {
            assert(others[idx] == nodes[idx]);
        },
        VNode::Element { tag, attrs, children } => {
            assert(others[idx] == nodes[idx]);
            lemma_shows_from_kept(host, other, children@, 0, nodes, others, idx + 1);
        },
        VNode::Component(component) => {},
    }
}

/// What the host shows of the children of an element goes by their host
/// nodes and their entries in the mount.
pub proof fn lemma_shows_from_kept<P>(
    host: Host,
    other: Host,
    children: Seq<VNode<P>>,
    i: int,
    nodes: Seq<usize>,
    others: Seq<usize>,
    idx: int,
)
    requires
        0 <= i <= children.len(),
        shows_from(host, children, i, nodes, idx),
        0 <= idx,
        idx + crate::diff::laws::size_from(children, i) <= nodes.len(),
        idx + crate::diff::laws::size_from(children, i) <= others.len(),
        forall|j: int|
            idx <= j < idx + crate::diff::laws::size_from(children, i) ==> #[trigger] others[j]
                == nodes[j] && other.nodes.contains_key(ElementId(nodes[j]))
                && other.nodes[ElementId(nodes[j])] == host.nodes[ElementId(nodes[j])],
    ensures
        shows_from(other, children, i, others, idx),
        roots_from(children, i, others, idx) == roots_from(children, i, nodes, idx),
    decreases children, children.len() - i,
{
    if i < children.len() {
        let step = crate::diff::laws::size(children[i]);
        lemma_shows_kept(host, other, children[i], nodes, others, idx);
        lemma_shows_from_kept(host, other, children, i + 1, nodes, others, idx + step);
        assert(others[idx] == nodes[idx]);
    }
}

/// Creation builds the tree. The mutations written for a tree of host
/// nodes make the host show that tree, with its root on top of the
/// renderer's stack; they use ids that the host had not, and leave the
/// nodes that the host had as they were.
pub proof fn lemma_create_builds<T, P: AnyProps<T>>(
    pass: Pass<T, P>,
    node: VNode<P>,
    height: usize,
    nodes: Seq<usize>,
    idx: usize,
    parent: Option<ElementRef>,
)
    requires
        crate::diff::laws::hosted(node),
        idx <= nodes.len(),
        nodes.len() + crate::diff::laws::size(node) <= usize::MAX,
        pass.dom.elements.used.len() + crate::diff::laws::size(node) <= usize::MAX,
        pass.host_in_use(),
    ensures
        ({
            let made = pass.create(node, height, nodes, idx, parent);
            &&& made.result == Ok::<usize, crate::virtual_dom::DiffError>(
                (idx + crate::diff::laws::size(node)) as usize,
            )
            &&& made.pass.dom.elements.used.len() <= pass.dom.elements.used.len()
                + crate::diff::laws::size(node)
            &&& made.nodes.len() == nodes.len() + crate::diff::laws::size(node)
            &&& forall|j: int| 0 <= j < idx ==> made.nodes[j] == nodes[j]
            &&& made.pass.host().stack == pass.host().stack.push(ElementId(made.nodes[idx as int]))
            &&& shows(made.pass.host(), node, made.nodes, idx as int)
            &&& pass.host().kept_in(made.pass.host())
            &&& made.pass.host_in_use()
            &&& forall|j: int|
                idx <= j < idx + crate::diff::laws::size(node) ==> !pass.host().nodes.contains_key(
                    ElementId(#[trigger] made.nodes[j]),
                )
        }),
    decreases node,
{
    let made = pass.create(node, height, nodes, idx, parent);
    let before = pass.host();
    let id = pass.dom.elements.next();
    assert(!before.nodes.contains_key(id));
    match node {
        VNode::Text { text } => {
            lemma_run_push(
                Host::initial(),
                pass.edits,
                Mutation::CreateTextNode { value: text, id },
            );
            assert(made.nodes == nodes.insert(idx as int, id.0));
            assert forall|j: int| 0 <= j < idx implies made.nodes[j] == nodes[j] by {
                assert(nodes.insert(idx as int, id.0)[j] == nodes[j]);
            }
            assert forall|other: ElementId| #[trigger]
                made.pass.host().nodes.contains_key(other) implies made.pass.dom.elements.in_use(
                other,
            ) by {
                if other != id {
                    assert(before.nodes.contains_key(other));
                }
            }
        },
        VNode::Element { tag, attrs, children } => {
            let start = Host::initial();
            let first = nodes.insert(idx as int, id.0);
            let created = pass.edits.push(Mutation::CreateElement { tag, id });
            lemma_run_push(start, pass.edits, Mutation::CreateElement { tag, id });
            lemma_run_set_attributes(start, created, attrs@, id, attrs@.len() as int);
            let opened = Pass {
                dom: pass.dom.claim_element(),
                edits: crate::diff::model::set_attributes(created, attrs@, id),
            };
            let here = Some(ElementRef { element: id });
            assert(opened.host().stack == before.stack.push(id));
            assert(before.kept_in(opened.host()));
            assert forall|other: ElementId| #[trigger]
                opened.host().nodes.contains_key(other) implies opened.dom.elements.in_use(
                other,
            ) by {
                if other != id {
                    assert(before.nodes.contains_key(other));
                }
            }
            crate::diff::laws::lemma_create_children_fills(
                opened,
                children@,
                0,
                height,
                first,
                (idx + 1) as usize,
                here,
            );
            lemma_create_children_builds(
                opened,
                children@,
                0,
                height,
                first,
                (idx + 1) as usize,
                here,
            );
            let filled = opened.create_children(
                children@,
                0,
                height,
                first,
                (idx + 1) as usize,
                here,
            );
            let inner = filled.pass.host();
            let count = children@.len() as usize;
            assert(children@.len() == children.len());
            lemma_roots_len(children@, 0, filled.nodes, idx + 1);
            lemma_run_push(
                start,
                filled.pass.edits,
                Mutation::AppendChildren { id, m: count },
            );
            let after = made.pass.host();
            let roots = roots_from(children@, 0, filled.nodes, idx + 1);
            assert(opened.host().nodes.contains_key(id));
            assert(inner.nodes.contains_key(id) && inner.nodes[id] == opened.host().nodes[id]);
            assert(inner.stack =~= before.stack.push(id) + roots);
            assert(count <= inner.stack.len());
            assert(after == inner.apply(Mutation::AppendChildren { id, m: count }));
            assert(inner.top(count) =~= roots);
            assert(inner.below(count) =~= before.stack.push(id));
            assert(inner.nodes[id].children + roots =~= roots);
            assert(filled.nodes[idx as int] == id.0);
            assert forall|j: int|
                idx + 1 <= j < idx + 1 + crate::diff::laws::size_from(
                    children@,
                    0,
                ) implies #[trigger] filled.nodes[j] == filled.nodes[j]
                && after.nodes.contains_key(ElementId(filled.nodes[j])) && after.nodes[ElementId(
                filled.nodes[j],
            )] == inner.nodes[ElementId(filled.nodes[j])] by {
                assert(!opened.host().nodes.contains_key(ElementId(filled.nodes[j])));
                lemma_shows_from_has(inner, children@, 0, filled.nodes, idx + 1, j);
            }
            lemma_shows_from_kept(
                inner,
                after,
                children@,
                0,
                filled.nodes,
                filled.nodes,
                idx + 1,
            );
            assert(made.nodes == filled.nodes);
            assert forall|j: int| 0 <= j < idx implies made.nodes[j] == nodes[j] by {
                assert(filled.nodes[j] == first[j]);
                assert(first[j] == nodes[j]);
            }
            assert forall|other: ElementId| #[trigger] before.nodes.contains_key(
                other,
            ) implies after.nodes.contains_key(other) && after.nodes[other]
                == before.nodes[other] by {
                assert(opened.host().nodes.contains_key(other));
                assert(inner.nodes.contains_key(other));
            }
            assert forall|j: int|
                idx <= j < idx + crate::diff::laws::size(node) implies !before.nodes.contains_key(
                ElementId(#[trigger] made.nodes[j]),
            ) by {
                if j > idx {
                    assert(!opened.host().nodes.contains_key(ElementId(filled.nodes[j])));
                }
            }
        },
        VNode::Component(component) => {},
    }
}

/// Creation builds the children of an element, one after the other.
pub proof fn lemma_create_children_builds<T, P: AnyProps<T>>(
    pass: Pass<T, P>,
    children: Seq<VNode<P>>,
    i: int,
    height: usize,
    nodes: Seq<usize>,
    idx: usize,
    parent: Option<ElementRef>,
)
    requires
        0 <= i <= children.len(),
        crate::diff::laws::hosted_from(children, i),
        idx <= nodes.len(),
        nodes.len() + crate::diff::laws::size_from(children, i) <= usize::MAX,
        pass.dom.elements.used.len() + crate::diff::laws::size_from(children, i) <= usize::MAX,
        pass.host_in_use(),
    ensures
        ({
            let made = pass.create_children(children, i, height, nodes, idx, parent);
            &&& made.result == Ok::<usize, crate::virtual_dom::DiffError>(
                (idx + crate::diff::laws::size_from(children, i)) as usize,
            )
            &&& made.pass.dom.elements.used.len() <= pass.dom.elements.used.len()
                + crate::diff::laws::size_from(children, i)
            &&& made.nodes.len() == nodes.len() + crate::diff::laws::size_from(children, i)
            &&& forall|j: int| 0 <= j < idx ==> made.nodes[j] == nodes[j]
            &&& made.pass.host().stack == pass.host().stack + roots_from(
                children,
                i,
                made.nodes,
                idx as int,
            )
            &&& shows_from(made.pass.host(), children, i, made.nodes, idx as int)
            &&& pass.host().kept_in(made.pass.host())
            &&& made.pass.host_in_use()
            &&& forall|j: int|
                idx <= j < idx + crate::diff::laws::size_from(children, i)
                    ==> !pass.host().nodes.contains_key(ElementId(#[trigger] made.nodes[j]))
        }),
    decreases children, children.len() - i,
{
    if i < children.len() {
        let step = crate::diff::laws::size(children[i]);
        let made = pass.create(children[i], height, nodes, idx, parent);
        lemma_create_builds(pass, children[i], height, nodes, idx, parent);
        let next = (idx + step) as usize;
        lemma_create_children_builds(made.pass, children, i + 1, height, made.nodes, next, parent);
        let rest = made.pass.create_children(children, i + 1, height, made.nodes, next, parent);
        assert forall|j: int| idx <= j < idx + step implies #[trigger] rest.nodes[j]
            == made.nodes[j] && rest.pass.host().nodes.contains_key(ElementId(made.nodes[j]))
            && rest.pass.host().nodes[ElementId(made.nodes[j])] == made.pass.host().nodes[ElementId(
            made.nodes[j],
        )] by {
            lemma_shows_has(made.pass.host(), children[i], made.nodes, idx as int, j);
        }
        lemma_shows_kept(
            made.pass.host(),
            rest.pass.host(),
            children[i],
            made.nodes,
            rest.nodes,
            idx as int,
        );
        assert(rest.pass.host().stack =~= pass.host().stack + roots_from(
            children,
            i,
            rest.nodes,
            idx as int,
        ));
        assert forall|j: int|
            idx <= j < idx + crate::diff::laws::size_from(
                children,
                i,
            ) implies !pass.host().nodes.contains_key(ElementId(#[trigger] rest.nodes[j])) by {
            if j >= idx + step {
                assert(!made.pass.host().nodes.contains_key(ElementId(rest.nodes[j])));
            }
        }
    } else {
        assert(pass.host().stack + Seq::<ElementId>::empty() =~= pass.host().stack);
    }
}

/// The host has a node for every entry of a tree that it shows.
pub proof fn lemma_shows_has<P>(host: Host, node: VNode<P>, nodes: Seq<usize>, idx: int, j: int)
    requires
        shows(host, node, nodes, idx),
        idx <= j < idx + crate::diff::laws::size(node),
    ensures
        0 <= j < nodes.len(),
        host.nodes.contains_key(ElementId(nodes[j])),
    decreases node,
{
    match node {
        VNode::Element { tag, attrs, children } => {
            if j > idx {
                lemma_shows_from_has(host, children@, 0, nodes, idx + 1, j);
            }
        },
        _ => {},
    }
}

/// The host has a node for every entry of the children that it shows.
pub proof fn lemma_shows_from_has<P>(
    host: Host,
    children: Seq<VNode<P>>,
    i: int,
    nodes: Seq<usize>,
    idx: int,
    j: int,
)
    requires
        0 <= i <= children.len(),
        shows_from(host, children, i, nodes, idx),
        idx <= j < idx + crate::diff::laws::size_from(children, i),
    ensures
        0 <= j < nodes.len(),
        host.nodes.contains_key(ElementId(nodes[j])),
    decreases children, children.len() - i,
{
    if i < children.len() {
        let step = crate::diff::laws::size(children[i]);
        if j < idx + step {
            lemma_shows_has(host, children[i], nodes, idx, j);
        } else {
            lemma_shows_from_has(host, children, i + 1, nodes, idx + step, j);
        }
    }
}

/// Two trees of host nodes of the same build: a text against a text; an
/// element against an element of the same shape, their children pairwise
/// of the same build.
pub open spec fn congruent<P>(mounted: VNode<P>, new: VNode<P>) -> bool
    decreases new,
{
    match new {
        VNode::Text { text } => mounted is Text,
        VNode::Element { tag, attrs, children } => {
            &&& crate::diff::model::same_shape(mounted, new)
            &&& congruent_from(mounted->children@, children@, 0)
        },
        VNode::Component(component) => false,
    }
}

/// The trees `mounted[i..]` and `new[i..]` are pairwise of the same
/// build.
pub open spec fn congruent_from<P>(mounted: Seq<VNode<P>>, new: Seq<VNode<P>>, i: int) -> bool
    decreases new, new.len() - i,
{
    if 0 <= i < new.len() {
        congruent(mounted[i], new[i]) && congruent_from(mounted, new, i + 1)
    } else {
        true
    }
}

/// Trees of the same build have as many nodes.
pub proof fn lemma_congruent_size<P>(mounted: VNode<P>, new: VNode<P>)
    requires
        congruent(mounted, new),
    ensures
        crate::diff::laws::size(mounted) == crate::diff::laws::size(new),
    decreases new,
{
    match new {
        VNode::Element { tag, attrs, children } => {
            lemma_congruent_size_from(mounted->children@, children@, 0);
        },
        _ => {},
    }
}

/// Children of the same build have as many nodes, and stand at the same
/// positions of the mount.
pub proof fn lemma_congruent_size_from<P>(mounted: Seq<VNode<P>>, new: Seq<VNode<P>>, i: int)
    requires
        0 <= i <= new.len(),
        mounted.len() == new.len(),
        congruent_from(mounted, new, i),
    ensures
        crate::diff::laws::size_from(mounted, i) == crate::diff::laws::size_from(new, i),
        forall|nodes: Seq<usize>, idx: int| #[trigger]
            roots_from(mounted, i, nodes, idx) == roots_from(new, i, nodes, idx),
    decreases new, new.len() - i,
{
    if i < new.len() {
        lemma_congruent_size(mounted[i], new[i]);
        lemma_congruent_size_from(mounted, new, i + 1);
        assert forall|nodes: Seq<usize>, idx: int| #[trigger]
            roots_from(mounted, i, nodes, idx) == roots_from(new, i, nodes, idx) by {
            let step = crate::diff::laws::size(new[i]);
            assert(roots_from(mounted, i + 1, nodes, idx + step) == roots_from(
                new,
                i + 1,
                nodes,
                idx + step,
            ));
        }
    }
}

/// The attributes of an element after those of `new[i..]` that have to
/// be set were set.
pub open spec fn patched(
    attrs: Map<Seq<char>, Seq<char>>,
    mounted: Seq<Attribute>,
    new: Seq<Attribute>,
    i: int,
) -> Map<Seq<char>, Seq<char>>
    decreases new.len() - i,
{
    if 0 <= i < new.len() {
        patched(
            if crate::diff::model::must_set(mounted, new, i) {
                attrs.insert(new[i].name@, new[i].value@)
            } else {
                attrs
            },
            mounted,
            new,
            i + 1,
        )
    } else {
        attrs
    }
}

/// Patching the attributes of an element changes its attributes, and
/// nothing else.
pub proof fn lemma_run_patch(
    host: Host,
    edits: Seq<Mutation>,
    mounted: Seq<Attribute>,
    new: Seq<Attribute>,
    id: ElementId,
    i: int,
)
    requires
        host.run(edits).nodes.contains_key(id),
    ensures
        ({
            let before = host.run(edits);
            let after = host.run(crate::diff::model::patch_attributes(edits, mounted, new, id, i));
            &&& after.stack == before.stack
            &&& after.nodes == before.nodes.insert(
                id,
                HostNode { attrs: patched(before.nodes[id].attrs, mounted, new, i), ..before.nodes[id] },
            )
        }),
    decreases new.len() - i,
{
    let before = host.run(edits);
    if 0 <= i < new.len() {
        if !crate::diff::model::must_set(mounted, new, i) {
            lemma_run_patch(host, edits, mounted, new, id, i + 1);
        } else {
            let set = Mutation::SetAttribute { name: new[i].name, value: new[i].value, id };
            lemma_run_push(host, edits, set);
            lemma_run_patch(host, edits.push(set), mounted, new, id, i + 1);
            let after = host.run(crate::diff::model::patch_attributes(edits, mounted, new, id, i));
            assert(after.nodes =~= before.nodes.insert(
                id,
                HostNode {
                    attrs: patched(before.nodes[id].attrs, mounted, new, i),
                    ..before.nodes[id]
                },
            ));
        }
    } else {
        assert(before.nodes =~= before.nodes.insert(
            id,
            HostNode { attrs: patched(before.nodes[id].attrs, mounted, new, i), ..before.nodes[id] },
        ));
    }
}

/// An attribute of the name `name` stands among the first `n`.
pub open spec fn named(attrs: Seq<Attribute>, name: Seq<char>, n: int) -> bool {
    exists|k: int| 0 <= k < n && (#[trigger] attrs[k]).name@ == name
}

/// The value of an attribute of the name `name` among the first `i`
/// differs between the old and the new element.
pub open spec fn changed_before(
    mounted: Seq<Attribute>,
    new: Seq<Attribute>,
    name: Seq<char>,
    i: int,
) -> bool {
    exists|j: int|
        0 <= j < i && #[trigger] crate::diff::model::differs(mounted, new, j) && new[j].name@
            == name
}

/// The host has a value for exactly the names that were set.
pub proof fn lemma_attr_map_names(attrs: Seq<Attribute>, n: int, name: Seq<char>)
    requires
        0 <= n <= attrs.len(),
    ensures
        attr_map(attrs, n).contains_key(name) == named(attrs, name, n),
    decreases n,
{
    if n > 0 {
        lemma_attr_map_names(attrs, n - 1, name);
        if named(attrs, name, n - 1) {
            let k = choose|k: int| 0 <= k < n - 1 && (#[trigger] attrs[k]).name@ == name;
            assert(0 <= k < n && attrs[k].name@ == name);
        }
        if attrs[n - 1].name@ == name {
            assert(0 <= n - 1 < n && attrs[n - 1].name@ == name);
        }
        if named(attrs, name, n) {
            let k = choose|k: int| 0 <= k < n && (#[trigger] attrs[k]).name@ == name;
            if k < n - 1 {
                assert(0 <= k < n - 1 && attrs[k].name@ == name);
            }
        }
    }
}

/// A name none of whose attributes changed has the value on the host
/// that it had.
pub proof fn lemma_attr_map_unchanged(
    mounted: Seq<Attribute>,
    new: Seq<Attribute>,
    n: int,
    name: Seq<char>,
)
    requires
        0 <= n <= new.len(),
        mounted.len() == new.len(),
        forall|k: int| 0 <= k < new.len() ==> (#[trigger] mounted[k]).name@ == new[k].name@,
        !changed_before(mounted, new, name, n),
        attr_map(mounted, n).contains_key(name),
    ensures
        attr_map(new, n).contains_key(name),
        attr_map(new, n)[name] == attr_map(mounted, n)[name],
    decreases n,
{
    if n > 0 {
        assert(mounted[n - 1].name@ == new[n - 1].name@);
        if new[n - 1].name@ == name {
            if crate::diff::model::differs(mounted, new, n - 1) {
                assert(changed_before(mounted, new, name, n));
            }
        } else {
            assert(attr_map(mounted, n - 1).contains_key(name));
            if changed_before(mounted, new, name, n - 1) {
                let j = choose|j: int|
                    0 <= j < n - 1 && #[trigger] crate::diff::model::differs(mounted, new, j)
                        && new[j].name@ == name;
                assert(0 <= j < n && crate::diff::model::differs(mounted, new, j));
            }
            lemma_attr_map_unchanged(mounted, new, n - 1, name);
        }
    }
}

/// Patching makes the attributes those of the new element. Attributes
/// that were patched in order up to position `i`, from those of the old
/// element, are in the end the attributes of the new element as the host
/// has them when they are set one by one.
pub proof fn lemma_patched(
    attrs: Map<Seq<char>, Seq<char>>,
    mounted: Seq<Attribute>,
    new: Seq<Attribute>,
    i: int,
)
    requires
        0 <= i <= new.len(),
        mounted.len() == new.len(),
        forall|k: int| 0 <= k < new.len() ==> (#[trigger] mounted[k]).name@ == new[k].name@,
        attrs.dom() == attr_map(mounted, new.len() as int).dom(),
        forall|name: Seq<char>| #[trigger]
            attrs.contains_key(name) ==> if changed_before(mounted, new, name, i) {
                attr_map(new, i).contains_key(name) && attrs[name] == attr_map(new, i)[name]
            } else {
                attrs[name] == attr_map(mounted, new.len() as int)[name]
            },
    ensures
        patched(attrs, mounted, new, i) == attr_map(new, new.len() as int),
    decreases new.len() - i,
{
    let n = new.len() as int;
    if i < n {
        let here = new[i].name@;
        let set = crate::diff::model::must_set(mounted, new, i);
        let next = if set {
            attrs.insert(here, new[i].value@)
        } else {
            attrs
        };
        assert(mounted[i].name@ == here);
        lemma_attr_map_names(mounted, n, here);
        assert(named(mounted, here, n));
        assert(next.dom() =~= attrs.dom());
        assert forall|name: Seq<char>| #[trigger] next.contains_key(name) implies if changed_before(
            mounted,
            new,
            name,
            i + 1,
        ) {
            attr_map(new, i + 1).contains_key(name) && next[name] == attr_map(new, i + 1)[name]
        } else {
            next[name] == attr_map(mounted, n)[name]
        } by {
            assert(attrs.contains_key(name));
            if name == here {
                if set {
                    let k = choose|k: int|
                        0 <= k <= i && #[trigger] crate::diff::model::differs(mounted, new, k)
                            && new[k].name@ == new[i].name@;
                    assert(0 <= k < i + 1 && crate::diff::model::differs(mounted, new, k));
                    assert(changed_before(mounted, new, name, i + 1));
                } else {
                    if changed_before(mounted, new, name, i + 1) {
                        let j = choose|j: int|
                            0 <= j < i + 1 && #[trigger] crate::diff::model::differs(
                                mounted,
                                new,
                                j,
                            ) && new[j].name@ == name;
                        assert(0 <= j <= i && crate::diff::model::differs(mounted, new, j));
                    }
                    if changed_before(mounted, new, name, i) {
                        let j = choose|j: int|
                            0 <= j < i && #[trigger] crate::diff::model::differs(mounted, new, j)
                                && new[j].name@ == name;
                        assert(0 <= j <= i && crate::diff::model::differs(mounted, new, j));
                    }
                }
            } else {
                if changed_before(mounted, new, name, i + 1) {
                    let j = choose|j: int|
                        0 <= j < i + 1 && #[trigger] crate::diff::model::differs(mounted, new, j)
                            && new[j].name@ == name;
                    assert(0 <= j < i && crate::diff::model::differs(mounted, new, j));
                    assert(changed_before(mounted, new, name, i));
                }
                if changed_before(mounted, new, name, i) {
                    let j = choose|j: int|
                        0 <= j < i && #[trigger] crate::diff::model::differs(mounted, new, j)
                            && new[j].name@ == name;
                    assert(0 <= j < i + 1 && crate::diff::model::differs(mounted, new, j));
                    assert(changed_before(mounted, new, name, i + 1));
                }
            }
        }
        lemma_patched(next, mounted, new, i + 1);
    } else {
        assert forall|name: Seq<char>| attrs.contains_key(name) == attr_map(new, n).contains_key(
            name,
        ) by {
            lemma_attr_map_names(mounted, n, name);
            lemma_attr_map_names(new, n, name);
            if named(mounted, name, n) {
                let k = choose|k: int| 0 <= k < n && (#[trigger] mounted[k]).name@ == name;
                assert(new[k].name@ == name);
            }
            if named(new, name, n) {
                let k = choose|k: int| 0 <= k < n && (#[trigger] new[k]).name@ == name;
                assert(mounted[k].name@ == name);
            }
        }
        assert forall|name: Seq<char>| attrs.contains_key(name) implies attrs[name] == attr_map(
            new,
            n,
        )[name] by {
            if !changed_before(mounted, new, name, n) {
                lemma_attr_map_unchanged(mounted, new, n, name);
            }
        }
        assert(attrs =~= attr_map(new, n));
    }
}

/// The host node `id` is named by one of the entries `idx..idx + count`
/// of the mount.
pub open spec fn among(nodes: Seq<usize>, idx: int, count: int, id: ElementId) -> bool {
    exists|j: int| idx <= j < idx + count && ElementId(#[trigger] nodes[j]) == id
}

/// The host nodes outside the entries `idx..idx + count` of the mount
/// are in `after` as in `before`, the renderer has the same nodes, and
/// its stack is as it was.
pub open spec fn changes_only(
    before: Host,
    after: Host,
    nodes: Seq<usize>,
    idx: int,
    count: int,
) -> bool {
    &&& after.stack == before.stack
    &&& after.nodes.dom() == before.nodes.dom()
    &&& forall|id: ElementId|
        before.nodes.contains_key(id) && !(#[trigger] among(nodes, idx, count, id))
            ==> after.nodes[id] == before.nodes[id]
}

/// The entries `idx..idx + count` of the mount name different nodes.
pub open spec fn entries_distinct(nodes: Seq<usize>, idx: int, count: int) -> bool {
    forall|j: int, k: int|
        idx <= j < k < idx + count ==> #[trigger] nodes[j] != #[trigger] nodes[k]
}

/// A diff in place patches the host tree. Where the host shows the
/// mounted tree, and the new tree is of the same build, the mutations
/// written by the diff make the host show the new tree, node for node
/// at the same host nodes. They touch no other node of the host, and
/// leave the renderer's stack as it was.
pub proof fn lemma_diff_patches<T, P: AnyProps<T>>(
    pass: Pass<T, P>,
    mounted: VNode<P>,
    new: VNode<P>,
    height: usize,
    nodes: Seq<usize>,
    idx: usize,
    parent: Option<ElementRef>,
)
    requires
        congruent(mounted, new),
        shows(pass.host(), mounted, nodes, idx as int),
        idx + crate::diff::laws::size(mounted) <= nodes.len() <= usize::MAX,
        entries_distinct(nodes, idx as int, crate::diff::laws::size(mounted) as int),
    ensures
        ({
            let diffed = pass.diff_node(mounted, new, height, nodes, idx, parent);
            &&& diffed.result == Ok::<usize, crate::virtual_dom::DiffError>(
                (idx + crate::diff::laws::size(new)) as usize,
            )
            &&& diffed.nodes == nodes
            &&& diffed.pass.dom == pass.dom
            &&& shows(diffed.pass.host(), new, nodes, idx as int)
            &&& changes_only(
                pass.host(),
                diffed.pass.host(),
                nodes,
                idx as int,
                crate::diff::laws::size(mounted) as int,
            )
        }),
    decreases new,
{
    let before = pass.host();
    let id = ElementId(nodes[idx as int]);
    lemma_congruent_size(mounted, new);
    match new {
        VNode::Text { text } => {
            if mounted->text@ != text@ {
                lemma_run_push(Host::initial(), pass.edits, Mutation::SetText { value: text, id });
                let after = pass.diff_node(mounted, new, height, nodes, idx, parent).pass.host();
                assert(after.nodes.dom() =~= before.nodes.dom());
                assert forall|other: ElementId|
                    before.nodes.contains_key(other) && !(#[trigger] among(
                        nodes,
                        idx as int,
                        1,
                        other,
                    )) implies after.nodes[other] == before.nodes[other] by {
                    assert(ElementId(nodes[idx as int]) != other);
                }
            }
        },
        VNode::Element { tag, attrs, children } => {
            let olds = mounted->children@;
            let count = crate::diff::laws::size_from(olds, 0) as int;
            lemma_congruent_size_from(olds, children@, 0);
            lemma_run_patch(Host::initial(), pass.edits, mounted->attrs@, attrs@, id, 0);
            assert forall|k: int| 0 <= k < attrs@.len() implies (
            #[trigger] mounted->attrs@[k]).name@ == attrs@[k].name@ by {}
            lemma_patched(before.nodes[id].attrs, mounted->attrs@, attrs@, 0);
            let patched_pass = Pass {
                edits: crate::diff::model::patch_attributes(
                    pass.edits,
                    mounted->attrs@,
                    attrs@,
                    id,
                    0,
                ),
                ..pass
            };
            let mid = patched_pass.host();
            assert(mid.nodes[id].attrs == attr_map(attrs@, attrs@.len() as int));
            assert forall|j: int| idx + 1 <= j < idx + 1 + count implies #[trigger] nodes[j]
                == nodes[j] && mid.nodes.contains_key(ElementId(nodes[j])) && mid.nodes[ElementId(
                nodes[j],
            )] == before.nodes[ElementId(nodes[j])] by {
                lemma_shows_from_has(before, olds, 0, nodes, idx + 1, j);
                assert(nodes[idx as int] != nodes[j]);
            }
            lemma_shows_from_kept(before, mid, olds, 0, nodes, nodes, idx + 1);
            assert(entries_distinct(nodes, idx + 1, count));
            let here = Some(ElementRef { element: id });
            lemma_diff_children_patches(
                patched_pass,
                olds,
                children@,
                0,
                height,
                nodes,
                (idx + 1) as usize,
                here,
            );
            let diffed = patched_pass.diff_children(
                olds,
                children@,
                0,
                height,
                nodes,
                (idx + 1) as usize,
                here,
            );
            let after = diffed.pass.host();
            assert(!among(nodes, idx + 1, count, id)) by {
                if among(nodes, idx + 1, count, id) {
                    let j = choose|j: int|
                        idx + 1 <= j < idx + 1 + count && ElementId(#[trigger] nodes[j]) == id;
                    assert(nodes[idx as int] != nodes[j]);
                }
            }
            assert(mid.nodes.contains_key(id));
            assert(after.nodes[id] == mid.nodes[id]);
            assert(after.nodes.dom() =~= before.nodes.dom()) by {
                assert(mid.nodes.dom() =~= before.nodes.dom());
            }
            assert forall|other: ElementId|
                before.nodes.contains_key(other) && !(#[trigger] among(
                    nodes,
                    idx as int,
                    1 + count,
                    other,
                )) implies after.nodes[other] == before.nodes[other] by {
                assert(ElementId(nodes[idx as int]) != other);
                assert(mid.nodes[other] == before.nodes[other]);
                assert(mid.nodes.contains_key(other));
                if among(nodes, idx + 1, count, other) {
                    let j = choose|j: int|
                        idx + 1 <= j < idx + 1 + count && ElementId(#[trigger] nodes[j]) == other;
                    assert(idx <= j < idx + 1 + count && ElementId(nodes[j]) == other);
                }
            }
        },
        VNode::Component(component) => {},
    }
}

/// A diff in place patches the children of an element, one after the
/// other.
pub proof fn lemma_diff_children_patches<T, P: AnyProps<T>>(
    pass: Pass<T, P>,
    mounted: Seq<VNode<P>>,
    new: Seq<VNode<P>>,
    i: int,
    height: usize,
    nodes: Seq<usize>,
    idx: usize,
    parent: Option<ElementRef>,
)
    requires
        0 <= i <= new.len(),
        mounted.len() == new.len(),
        congruent_from(mounted, new, i),
        shows_from(pass.host(), mounted, i, nodes, idx as int),
        idx + crate::diff::laws::size_from(mounted, i) <= nodes.len() <= usize::MAX,
        entries_distinct(nodes, idx as int, crate::diff::laws::size_from(mounted, i) as int),
    ensures
        ({
            let diffed = pass.diff_children(mounted, new, i, height, nodes, idx, parent);
            &&& diffed.result == Ok::<usize, crate::virtual_dom::DiffError>(
                (idx + crate::diff::laws::size_from(new, i)) as usize,
            )
            &&& diffed.nodes == nodes
            &&& diffed.pass.dom == pass.dom
            &&& shows_from(diffed.pass.host(), new, i, nodes, idx as int)
            &&& changes_only(
                pass.host(),
                diffed.pass.host(),
                nodes,
                idx as int,
                crate::diff::laws::size_from(mounted, i) as int,
            )
        }),
    decreases new, new.len() - i,
{
    let before = pass.host();
    if i < new.len() {
        let step = crate::diff::laws::size(mounted[i]) as int;
        let rest = crate::diff::laws::size_from(mounted, i + 1) as int;
        lemma_congruent_size(mounted[i], new[i]);
        lemma_congruent_size_from(mounted, new, i + 1);
        assert(entries_distinct(nodes, idx as int, step));
        lemma_diff_patches(pass, mounted[i], new[i], height, nodes, idx, parent);
        let first = pass.diff_node(mounted[i], new[i], height, nodes, idx, parent);
        let mid = first.pass.host();
        let next = (idx + step) as usize;
        assert forall|j: int| idx + step <= j < idx + step + rest implies #[trigger] nodes[j]
            == nodes[j] && mid.nodes.contains_key(ElementId(nodes[j])) && mid.nodes[ElementId(
            nodes[j],
        )] == before.nodes[ElementId(nodes[j])] by {
            lemma_shows_from_has(before, mounted, i + 1, nodes, idx + step, j);
            if among(nodes, idx as int, step, ElementId(nodes[j])) {
                let k = choose|k: int|
                    idx <= k < idx + step && ElementId(#[trigger] nodes[k]) == ElementId(nodes[j]);
                assert(nodes[k] != nodes[j]);
            }
        }
        lemma_shows_from_kept(before, mid, mounted, i + 1, nodes, nodes, idx + step);
        assert(entries_distinct(nodes, idx + step, rest));
        lemma_diff_children_patches(first.pass, mounted, new, i + 1, height, nodes, next, parent);
        let diffed = first.pass.diff_children(mounted, new, i + 1, height, nodes, next, parent);
        let after = diffed.pass.host();
        assert forall|j: int| idx <= j < idx + step implies #[trigger] nodes[j] == nodes[j]
            && after.nodes.contains_key(ElementId(nodes[j])) && after.nodes[ElementId(nodes[j])]
            == mid.nodes[ElementId(nodes[j])] by {
            lemma_shows_has(mid, new[i], nodes, idx as int, j);
            if among(nodes, idx + step, rest, ElementId(nodes[j])) {
                let k = choose|k: int|
                    idx + step <= k < idx + step + rest && ElementId(#[trigger] nodes[k])
                        == ElementId(nodes[j]);
                assert(nodes[j] != nodes[k]);
            }
        }
        lemma_shows_kept(mid, after, new[i], nodes, nodes, idx as int);
        assert(after.nodes.dom() =~= before.nodes.dom()) by {
            assert(mid.nodes.dom() =~= before.nodes.dom());
        }
        assert forall|other: ElementId|
            before.nodes.contains_key(other) && !(#[trigger] among(
                nodes,
                idx as int,
                step + rest,
                other,
            )) implies after.nodes[other] == before.nodes[other] by {
            if among(nodes, idx as int, step, other) {
                let j = choose|j: int|
                    idx <= j < idx + step && ElementId(#[trigger] nodes[j]) == other;
                assert(idx <= j < idx + step + rest && ElementId(nodes[j]) == other);
            }
            assert(mid.nodes[other] == before.nodes[other]);
            assert(mid.nodes.contains_key(other));
            if among(nodes, idx + step, rest, other) {
                let j = choose|j: int|
                    idx + step <= j < idx + step + rest && ElementId(#[trigger] nodes[j]) == other;
                assert(idx <= j < idx + step + rest && ElementId(nodes[j]) == other);
            }
        }
    }
}

/// A diff of a scope in place patches the host tree. Where the host
/// shows the stored tree of the scope and the new render is of the same
/// build, the diff goes through, stores the new render, keeps the mount,
/// and leaves the host showing the new tree at the same host nodes.
pub proof fn lemma_diff_scope_patches<T, P: AnyProps<T>>(
    pass: Pass<T, P>,
    scope: crate::runtime::ScopeId,
    new_nodes: RenderReturn<P>,
)
    requires
        pass.dom.rendered_of(scope) is Some,
        pass.dom.rendered_of(scope)->0.is_ready() == new_nodes.is_ready(),
        congruent(*pass.dom.rendered_of(scope)->0.node(), *new_nodes.node()),
        pass.dom.scope(scope).mount.nodes.len() == crate::diff::laws::size(
            *pass.dom.rendered_of(scope)->0.node(),
        ),
        pass.dom.scope(scope).mount.nodes.len() <= usize::MAX,
        shows(
            pass.host(),
            *pass.dom.rendered_of(scope)->0.node(),
            pass.dom.scope(scope).mount.nodes,
            0,
        ),
        entries_distinct(
            pass.dom.scope(scope).mount.nodes,
            0,
            pass.dom.scope(scope).mount.nodes.len() as int,
        ),
    ensures
        ({
            let diffed = pass.diff_scope(scope, new_nodes);
            let nodes = pass.dom.scope(scope).mount.nodes;
            &&& diffed.result == Ok::<(), crate::virtual_dom::DiffError>(())
            &&& diffed.pass.dom.rendered_of(scope) == Some(new_nodes)
            &&& diffed.pass.dom.scope(scope).mount == pass.dom.scope(scope).mount
            &&& shows(diffed.pass.host(), *new_nodes.node(), nodes, 0)
            &&& changes_only(pass.host(), diffed.pass.host(), nodes, 0, nodes.len() as int)
        }),
{
    let stored = pass.dom.rendered_of(scope)->0;
    let mount = pass.dom.scope(scope).mount;
    let taken = pass.with_dom(
        pass.dom.with_runtime(pass.dom.runtime.push_scope(scope)).set_rendered(
            scope,
            None,
        ).take_mount(scope),
    );
    assert(taken.host() == pass.host());
    lemma_diff_patches(
        taken,
        *stored.node(),
        *new_nodes.node(),
        mount.height,
        mount.nodes,
        0,
        mount.parent,
    );
    crate::diff::laws::lemma_diff_scope_stores(pass, scope, new_nodes);
    let diffed = taken.diff_node(
        *stored.node(),
        *new_nodes.node(),
        mount.height,
        mount.nodes,
        0,
        mount.parent,
    );
    assert(diffed.pass.dom == taken.dom);
    assert(taken.dom.scopes[scope.0 as int] is Some);
}

/// Mounting the root builds its tree. Where the root scope renders a
/// tree of host nodes, `rebuild` goes through and leaves the host
/// showing that tree, hung under the root of the host tree as its last
/// child; the tree is the stored tree of the root scope.
pub proof fn lemma_rebuild_builds<T, P: AnyProps<T>>(pass: Pass<T, P>)
    requires
        pass.dom.has_scope(crate::runtime::ScopeId(0)),
        pass.host_in_use(),
        pass.host().nodes.contains_key(ElementId(0)),
        crate::diff::laws::hosted(*pass.dom.rendered(crate::runtime::ScopeId(0))->0.node()),
        pass.dom.elements.used.len() + crate::diff::laws::size(
            *pass.dom.rendered(crate::runtime::ScopeId(0))->0.node(),
        ) <= usize::MAX,
    ensures
        ({
            let root = crate::runtime::ScopeId(0);
            let tree = pass.dom.rendered(root)->0;
            let built = pass.rebuild();
            let nodes = built.pass.dom.scope(root).mount.nodes;
            &&& built.result == Ok::<(), crate::virtual_dom::DiffError>(())
            &&& built.pass.dom.rendered_of(root) == Some(tree)
            &&& nodes.len() == crate::diff::laws::size(*tree.node())
            &&& shows(built.pass.host(), *tree.node(), nodes, 0)
            &&& built.pass.host().stack == pass.host().stack
            &&& built.pass.host().nodes[ElementId(0)].children == pass.host().nodes[ElementId(
                0,
            )].children.push(ElementId(nodes[0]))
            &&& built.pass.host_in_use()
        }),
{
    let root = crate::runtime::ScopeId(0);
    let tree = pass.dom.rendered(root)->0;
    let node = *tree.node();
    let parent = Some(ElementRef { element: ElementId(0) });
    let ran = pass.with_dom(pass.dom.run_scope(root));
    let height = ran.dom.height_of(root)->0;
    let pushed = ran.with_dom(ran.dom.with_runtime(ran.dom.runtime.push_scope(root)));
    assert(pushed.host() == pass.host());
    assert(pushed.host_in_use());
    lemma_create_builds(pushed, node, height, Seq::empty(), 0, parent);
    crate::diff::laws::lemma_create_keeps(pushed, node, height, Seq::empty(), 0, parent);
    let made = pushed.create(node, height, Seq::empty(), 0, parent);
    assert(pushed.dom.scopes[root.0 as int] is Some);
    assert(made.pass.dom.scopes[root.0 as int] == pushed.dom.scopes[root.0 as int]);
    let created = ran.create_scope(root, node, parent);
    assert(created.pass.edits == made.pass.edits);
    let stored = created.pass.with_dom(created.pass.dom.set_rendered(root, Some(tree)));
    let inner = made.pass.host();
    assert(stored.host() == inner);
    lemma_run_push(
        Host::initial(),
        stored.edits,
        Mutation::AppendChildren { id: ElementId(0), m: 1 },
    );
    let built = pass.rebuild();
    let after = built.pass.host();
    let first = ElementId(made.nodes[0]);
    assert(inner.nodes.contains_key(ElementId(0)));
    assert(inner.top(1) =~= seq![first]);
    assert(inner.below(1) =~= pass.host().stack);
    assert(inner.nodes[ElementId(0)].children + seq![first] =~= pass.host().nodes[ElementId(
        0,
    )].children.push(first));
    assert forall|j: int|
        0 <= j < crate::diff::laws::size(node) implies #[trigger] made.nodes[j] == made.nodes[j]
        && after.nodes.contains_key(ElementId(made.nodes[j])) && after.nodes[ElementId(
        made.nodes[j],
    )] == inner.nodes[ElementId(made.nodes[j])] by {
        lemma_shows_has(inner, node, made.nodes, 0, j);
        assert(!pass.host().nodes.contains_key(ElementId(made.nodes[j])));
    }
    lemma_shows_kept(inner, after, node, made.nodes, made.nodes, 0);
    assert forall|other: ElementId| #[trigger]
        after.nodes.contains_key(other) implies built.pass.dom.elements.in_use(other) by {
        assert(inner.nodes.contains_key(other));
    }
}

/// The mutations that a diff in place writes for the tree `new` against
/// the mounted tree `mounted` of the same build, whose entries start at
/// position `idx` of the mount: node by node in the order of the tree,
/// for a text that differs its new text, for an element those of its
/// attributes that have to be set, and then what its children need.
pub open spec fn patches<P>(mounted: VNode<P>, new: VNode<P>, nodes: Seq<usize>, idx: int) -> Seq<
    Mutation,
>
    decreases new,
{
    match new {
        VNode::Text { text } => if mounted->text@ == text@ {
            Seq::empty()
        } else {
            seq![Mutation::SetText { value: text, id: ElementId(nodes[idx]) }]
        },
        VNode::Element { tag, attrs, children } => crate::diff::model::patch_attributes(
            Seq::empty(),
            mounted->attrs@,
            attrs@,
            ElementId(nodes[idx]),
            0,
        ) + patches_from(mounted->children@, children@, 0, nodes, idx + 1),
        VNode::Component(component) => Seq::empty(),
    }
}

/// The mutations that a diff in place writes for the trees `new[i..]`
/// against `mounted[i..]`, one pair after the other.
pub open spec fn patches_from<P>(
    mounted: Seq<VNode<P>>,
    new: Seq<VNode<P>>,
    i: int,
    nodes: Seq<usize>,
    idx: int,
) -> Seq<Mutation>
    decreases new, new.len() - i,
{
    if 0 <= i < new.len() {
        patches(mounted[i], new[i], nodes, idx) + patches_from(
            mounted,
            new,
            i + 1,
            nodes,
            idx + crate::diff::laws::size(new[i]),
        )
    } else {
        Seq::empty()
    }
}

/// How many of the attributes `new[i..]` have to be set.
pub open spec fn attribute_changes(mounted: Seq<Attribute>, new: Seq<Attribute>, i: int) -> nat
    decreases new.len() - i,
{
    if 0 <= i < new.len() {
        attribute_changes(mounted, new, i + 1) + if crate::diff::model::must_set(mounted, new, i) {
            1nat
        } else {
            0nat
        }
    } else {
        0
    }
}

/// The element names each of its attributes once.
pub open spec fn names_distinct(attrs: Seq<Attribute>) -> bool {
    forall|i: int, j: int|
        0 <= i < j < attrs.len() ==> (#[trigger] attrs[i]).name@ != (#[trigger] attrs[j]).name@
}

/// How many of the attributes `new[i..]` differ in value from the old
/// ones.
pub open spec fn attributes_differing(mounted: Seq<Attribute>, new: Seq<Attribute>, i: int) -> nat
    decreases new.len() - i,
{
    if 0 <= i < new.len() {
        attributes_differing(mounted, new, i + 1) + if crate::diff::model::differs(
            mounted,
            new,
            i,
        ) {
            1nat
        } else {
            0nat
        }
    } else {
        0
    }
}

/// Patches go to changed fields only. Where an element names each of
/// its attributes once, an attribute has to be set exactly when its
/// value differs from the old one: a diff sets as many attributes as
/// differ, each of them one that differs.
pub proof fn lemma_distinct_names_set_changed_only(
    mounted: Seq<Attribute>,
    new: Seq<Attribute>,
    i: int,
)
    requires
        names_distinct(new),
    ensures
        forall|k: int|
            0 <= k < new.len() ==> #[trigger] crate::diff::model::must_set(mounted, new, k)
                == crate::diff::model::differs(mounted, new, k),
        attribute_changes(mounted, new, i) == attributes_differing(mounted, new, i),
    decreases new.len() - i,
{
    assert forall|k: int| 0 <= k < new.len() implies #[trigger] crate::diff::model::must_set(
        mounted,
        new,
        k,
    ) == crate::diff::model::differs(mounted, new, k) by {
        if crate::diff::model::must_set(mounted, new, k) {
            let j = choose|j: int|
                0 <= j <= k && #[trigger] crate::diff::model::differs(mounted, new, j)
                    && new[j].name@ == new[k].name@;
            if j < k {
                assert(new[j].name@ != new[k].name@);
            }
        }
        if crate::diff::model::differs(mounted, new, k) {
            assert(0 <= k <= k && crate::diff::model::differs(mounted, new, k) && new[k].name@
                == new[k].name@);
        }
    }
    if 0 <= i < new.len() {
        lemma_distinct_names_set_changed_only(mounted, new, i + 1);
    }
}

/// How many fields differ between two trees of the same build: texts
/// that differ, and attributes that have to be set.
pub open spec fn changes<P>(mounted: VNode<P>, new: VNode<P>) -> nat
    decreases new,
{
    match new {
        VNode::Text { text } => if mounted->text@ == text@ {
            0
        } else {
            1
        },
        VNode::Element { tag, attrs, children } => attribute_changes(mounted->attrs@, attrs@, 0)
            + changes_from(mounted->children@, children@, 0),
        VNode::Component(component) => 0,
    }
}

/// How many fields differ between the trees `mounted[i..]` and `new[i..]`.
pub open spec fn changes_from<P>(mounted: Seq<VNode<P>>, new: Seq<VNode<P>>, i: int) -> nat
    decreases new, new.len() - i,
{
    if 0 <= i < new.len() {
        changes(mounted[i], new[i]) + changes_from(mounted, new, i + 1)
    } else {
        0
    }
}

/// The mutation patches a field of a node: it sets a text or an
/// attribute, and makes, places and removes nothing.
pub open spec fn is_patch(mutation: Mutation) -> bool {
    mutation is SetText || mutation is SetAttribute
}

/// Patching attributes appends to the log what it appends to an empty
/// one: one mutation for each attribute that has to be set, each of
/// them setting an attribute.
pub proof fn lemma_patch_attributes_appends(
    edits: Seq<Mutation>,
    mounted: Seq<Attribute>,
    new: Seq<Attribute>,
    id: ElementId,
    i: int,
)
    ensures
        crate::diff::model::patch_attributes(edits, mounted, new, id, i) == edits
            + crate::diff::model::patch_attributes(Seq::empty(), mounted, new, id, i),
        crate::diff::model::patch_attributes(Seq::empty(), mounted, new, id, i).len()
            == attribute_changes(mounted, new, i),
        forall|k: int|
            0 <= k < crate::diff::model::patch_attributes(Seq::empty(), mounted, new, id, i).len()
                ==> (#[trigger] crate::diff::model::patch_attributes(
                Seq::empty(),
                mounted,
                new,
                id,
                i,
            )[k]) is SetAttribute,
    decreases new.len() - i,
{
    let alone = crate::diff::model::patch_attributes(Seq::empty(), mounted, new, id, i);
    if 0 <= i < new.len() {
        lemma_patch_attributes_appends(Seq::empty(), mounted, new, id, i + 1);
        let rest = crate::diff::model::patch_attributes(Seq::empty(), mounted, new, id, i + 1);
        if crate::diff::model::must_set(mounted, new, i) {
            let set = Mutation::SetAttribute { name: new[i].name, value: new[i].value, id };
            lemma_patch_attributes_appends(edits.push(set), mounted, new, id, i + 1);
            lemma_patch_attributes_appends(Seq::empty().push(set), mounted, new, id, i + 1);
            assert(alone =~= seq![set] + rest);
            assert(edits.push(set) + rest =~= edits + alone);
            assert forall|k: int| 0 <= k < alone.len() implies (#[trigger] alone[k])
                is SetAttribute by {
                if k > 0 {
                    assert(alone[k] == rest[k - 1]);
                }
            }
        } else {
            lemma_patch_attributes_appends(edits, mounted, new, id, i + 1);
        }
    } else {
        assert(edits + alone =~= edits);
    }
}

/// A diff in place writes the patches, and nothing else. For trees of
/// the same build the diff goes through, leaves the mount and the dom as
/// they were, and appends to the log exactly the patches of the fields
/// that differ: as many mutations as fields differ, each of them setting
/// a text or an attribute. None makes a node, places one, removes or
/// replaces one.
pub proof fn lemma_diff_writes_patches<T, P: AnyProps<T>>(
    pass: Pass<T, P>,
    mounted: VNode<P>,
    new: VNode<P>,
    height: usize,
    nodes: Seq<usize>,
    idx: usize,
    parent: Option<ElementRef>,
)
    requires
        congruent(mounted, new),
        idx + crate::diff::laws::size(mounted) <= nodes.len() <= usize::MAX,
    ensures
        ({
            let diffed = pass.diff_node(mounted, new, height, nodes, idx, parent);
            let written = patches(mounted, new, nodes, idx as int);
            &&& diffed.result == Ok::<usize, crate::virtual_dom::DiffError>(
                (idx + crate::diff::laws::size(new)) as usize,
            )
            &&& diffed.nodes == nodes
            &&& diffed.pass.dom == pass.dom
            &&& diffed.pass.edits == pass.edits + written
            &&& written.len() == changes(mounted, new)
            &&& forall|k: int| 0 <= k < written.len() ==> is_patch(#[trigger] written[k])
        }),
    decreases new,
{
    let id = ElementId(nodes[idx as int]);
    lemma_congruent_size(mounted, new);
    match new {
        VNode::Text { text } => {
            if mounted->text@ == text@ {
                assert(pass.edits + Seq::<Mutation>::empty() =~= pass.edits);
            } else {
                assert(pass.edits + seq![Mutation::SetText { value: text, id }] =~= pass.edits.push(
                    Mutation::SetText { value: text, id },
                ));
            }
        },
        VNode::Element { tag, attrs, children } => {
            let olds = mounted->children@;
            lemma_congruent_size_from(olds, children@, 0);
            lemma_patch_attributes_appends(pass.edits, mounted->attrs@, attrs@, id, 0);
            let own = crate::diff::model::patch_attributes(
                Seq::empty(),
                mounted->attrs@,
                attrs@,
                id,
                0,
            );
            let patched_pass = Pass { edits: pass.edits + own, ..pass };
            let here = Some(ElementRef { element: id });
            lemma_diff_children_write_patches(
                patched_pass,
                olds,
                children@,
                0,
                height,
                nodes,
                (idx + 1) as usize,
                here,
            );
            let below = patches_from(olds, children@, 0, nodes, idx + 1);
            let written = patches(mounted, new, nodes, idx as int);
            assert((pass.edits + own) + below =~= pass.edits + written);
            assert forall|k: int| 0 <= k < written.len() implies is_patch(#[trigger] written[k]) by {
                if k < own.len() {
                    assert(written[k] == own[k]);
                } else {
                    assert(written[k] == below[k - own.len()]);
                }
            }
        },
        VNode::Component(component) => {},
    }
}

/// A diff in place writes the patches of the children of an element,
/// one child after the other.
pub proof fn lemma_diff_children_write_patches<T, P: AnyProps<T>>(
    pass: Pass<T, P>,
    mounted: Seq<VNode<P>>,
    new: Seq<VNode<P>>,
    i: int,
    height: usize,
    nodes: Seq<usize>,
    idx: usize,
    parent: Option<ElementRef>,
)
    requires
        0 <= i <= new.len(),
        mounted.len() == new.len(),
        congruent_from(mounted, new, i),
        idx + crate::diff::laws::size_from(mounted, i) <= nodes.len() <= usize::MAX,
    ensures
        ({
            let diffed = pass.diff_children(mounted, new, i, height, nodes, idx, parent);
            let written = patches_from(mounted, new, i, nodes, idx as int);
            &&& diffed.result == Ok::<usize, crate::virtual_dom::DiffError>(
                (idx + crate::diff::laws::size_from(new, i)) as usize,
            )
            &&& diffed.nodes == nodes
            &&& diffed.pass.dom == pass.dom
            &&& diffed.pass.edits == pass.edits + written
            &&& written.len() == changes_from(mounted, new, i)
            &&& forall|k: int| 0 <= k < written.len() ==> is_patch(#[trigger] written[k])
        }),
    decreases new, new.len() - i,
{
    if i < new.len() {
        let step = crate::diff::laws::size(new[i]);
        lemma_congruent_size(mounted[i], new[i]);
        lemma_congruent_size_from(mounted, new, i + 1);
        lemma_diff_writes_patches(pass, mounted[i], new[i], height, nodes, idx, parent);
        let first = pass.diff_node(mounted[i], new[i], height, nodes, idx, parent);
        let next = (idx + step) as usize;
        lemma_diff_children_write_patches(
            first.pass,
            mounted,
            new,
            i + 1,
            height,
            nodes,
            next,
            parent,
        );
        let own = patches(mounted[i], new[i], nodes, idx as int);
        let rest = patches_from(mounted, new, i + 1, nodes, idx + step);
        let written = patches_from(mounted, new, i, nodes, idx as int);
        assert((pass.edits + own) + rest =~= pass.edits + written);
        assert forall|k: int| 0 <= k < written.len() implies is_patch(#[trigger] written[k]) by {
            if k < own.len() {
                assert(written[k] == own[k]);
            } else {
                assert(written[k] == rest[k - own.len()]);
            }
        }
    } else {
        assert(pass.edits + Seq::<Mutation>::empty() =~= pass.edits);
    }
}

/// One changed text gives one mutation. A diff in place of two trees
/// that differ in one field writes one mutation; where no attribute has
/// to be set, it sets a text.
pub proof fn lemma_one_change_one_patch<T, P: AnyProps<T>>(
    pass: Pass<T, P>,
    mounted: VNode<P>,
    new: VNode<P>,
    height: usize,
    nodes: Seq<usize>,
    idx: usize,
    parent: Option<ElementRef>,
)
    requires
        congruent(mounted, new),
        idx + crate::diff::laws::size(mounted) <= nodes.len() <= usize::MAX,
        changes(mounted, new) == 1,
    ensures
        ({
            let diffed = pass.diff_node(mounted, new, height, nodes, idx, parent);
            &&& diffed.result is Ok
            &&& diffed.pass.edits.len() == pass.edits.len() + 1
            &&& diffed.pass.edits.drop_last() == pass.edits
            &&& is_patch(diffed.pass.edits.last())
            &&& diffed.pass.edits.last() == patches(mounted, new, nodes, idx as int)[0]
        }),
{
    lemma_diff_writes_patches(pass, mounted, new, height, nodes, idx, parent);
    let diffed = pass.diff_node(mounted, new, height, nodes, idx, parent);
    let written = patches(mounted, new, nodes, idx as int);
    assert(is_patch(written[0]));
    assert(diffed.pass.edits.drop_last() =~= pass.edits);
}

/// A diff of a scope in place writes the patches, and nothing else.
/// Where the new render is of the same build as the stored tree of the
/// scope, the diff goes through, stores the new render, and appends to
/// the log exactly the patches of the fields that differ: as many
/// mutations as fields differ, each of them setting a text or an
/// attribute.
pub proof fn lemma_diff_scope_writes_patches<T, P: AnyProps<T>>(
    pass: Pass<T, P>,
    scope: crate::runtime::ScopeId,
    new_nodes: RenderReturn<P>,
)
    requires
        pass.dom.rendered_of(scope) is Some,
        pass.dom.rendered_of(scope)->0.is_ready() == new_nodes.is_ready(),
        congruent(*pass.dom.rendered_of(scope)->0.node(), *new_nodes.node()),
        pass.dom.scope(scope).mount.nodes.len() == crate::diff::laws::size(
            *pass.dom.rendered_of(scope)->0.node(),
        ),
        pass.dom.scope(scope).mount.nodes.len() <= usize::MAX,
    ensures
        ({
            let stored = pass.dom.rendered_of(scope)->0;
            let diffed = pass.diff_scope(scope, new_nodes);
            let written = patches(
                *stored.node(),
                *new_nodes.node(),
                pass.dom.scope(scope).mount.nodes,
                0,
            );
            &&& diffed.result == Ok::<(), crate::virtual_dom::DiffError>(())
            &&& diffed.pass.dom.rendered_of(scope) == Some(new_nodes)
            &&& diffed.pass.dom.scope(scope).mount == pass.dom.scope(scope).mount
            &&& diffed.pass.edits == pass.edits + written
            &&& written.len() == changes(*stored.node(), *new_nodes.node())
            &&& forall|k: int| 0 <= k < written.len() ==> is_patch(#[trigger] written[k])
        }),
{
    let stored = pass.dom.rendered_of(scope)->0;
    let mount = pass.dom.scope(scope).mount;
    let taken = pass.with_dom(
        pass.dom.with_runtime(pass.dom.runtime.push_scope(scope)).set_rendered(
            scope,
            None,
        ).take_mount(scope),
    );
    lemma_diff_writes_patches(
        taken,
        *stored.node(),
        *new_nodes.node(),
        mount.height,
        mount.nodes,
        0,
        mount.parent,
    );
    crate::diff::laws::lemma_diff_scope_stores(pass, scope, new_nodes);
    let diffed = taken.diff_node(
        *stored.node(),
        *new_nodes.node(),
        mount.height,
        mount.nodes,
        0,
        mount.parent,
    );
    assert(diffed.pass.dom == taken.dom);
    assert(taken.dom.scopes[scope.0 as int] is Some);
}

} // verus!
