//! What holds of every diff: when nothing is written, when an instance is
//! replaced, and what a diff leaves alone.
//!
//! - Memoization: `lemma_memoized_props_change_nothing`,
//!   `lemma_changed_props_render_once`, `lemma_diff_scope_stores`.
//! - Identity: `lemma_other_component_is_replaced`.
//! - Idempotence: `lemma_diff_identical_is_silent`,
//!   `lemma_diff_scope_identical_is_silent`, `lemma_diff_calm_is_silent`.
//! - What a diff leaves alone: `lemma_diff_node_keeps` and its companions,
//!   one for each step of the differ.
//! - Bookkeeping of mounts: `lemma_create_fills`,
//!   `lemma_remove_node_empties`, `lemma_diff_node_splices`,
//!   `lemma_create_scope_fits`, `lemma_diff_scope_fits`.

use crate::diff::model::{Pass, Step};
use crate::mutations::{Mutation, Removal};
use crate::nodes::{
    AnyProps, Attribute, ElementId, ElementRef, RenderReturn, VComponent, VNode,
};
use crate::runtime::ScopeId;
use crate::virtual_dom::{DiffError, DomView, MAX_SCOPE_HEIGHT};
use vstd::prelude::*;

verus! {

/// Number of entries that a tree takes in a mount: one for each of its
/// nodes.
pub open spec fn size<P>(node: VNode<P>) -> nat
    decreases node,
{
    match node {
        VNode::Element { tag, attrs, children } => 1 + size_from(children@, 0),
        _ => 1,
    }
}

/// Number of entries that the trees `nodes[i..]` take in a mount.
pub open spec fn size_from<P>(nodes: Seq<VNode<P>>, i: int) -> nat
    decreases nodes, nodes.len() - i,
{
    if 0 <= i < nodes.len() {
        size(nodes[i]) + size_from(nodes, i + 1)
    } else {
        0
    }
}

impl<T, P: AnyProps<T>> Pass<T, P> {
    /// The tree is mounted from position `idx` of the mount on, and every
    /// component placeholder in it is mounted on a scope further down
    /// whose props memoize the placeholder's.
    pub open spec fn settled(self, node: VNode<P>, height: usize, nodes: Seq<usize>, idx: int) -> bool
        decreases node,
    {
        &&& 0 <= idx < nodes.len()
        &&& match node {
            VNode::Text { text } => true,
            VNode::Element { tag, attrs, children } => self.settled_from(
                children@,
                0,
                height,
                nodes,
                idx + 1,
            ),
            VNode::Component(component) => {
                &&& crate::diff::model::deeper(self.dom.height_of(ScopeId(nodes[idx])), height)
                &&& self.dom.memoized(ScopeId(nodes[idx]), component.props) == Some(true)
            },
        }
    }

    /// The trees `children[i..]` are settled one after the other from
    /// position `idx` of the mount on.
    pub open spec fn settled_from(
        self,
        children: Seq<VNode<P>>,
        i: int,
        height: usize,
        nodes: Seq<usize>,
        idx: int,
    ) -> bool
        decreases children, children.len() - i,
    {
        if 0 <= i < children.len() {
            &&& self.settled(children[i], height, nodes, idx)
            &&& self.settled_from(children, i + 1, height, nodes, idx + size(children[i]))
        } else {
            true
        }
    }
}

/// Attributes diffed against themselves need no patch.
pub proof fn lemma_patch_identical(
    edits: Seq<Mutation>,
    attrs: Seq<Attribute>,
    id: ElementId,
    i: int,
)
    ensures
        crate::diff::model::patch_attributes(edits, attrs, attrs, id, i) == edits,
    decreases attrs.len() - i,
{
    if 0 <= i < attrs.len() {
        lemma_patch_identical(edits, attrs, id, i + 1);
    }
}

/// Idempotence. Diffing a mounted tree against an identical tree writes
/// no mutation and changes nothing, provided that the scopes mounted for
/// its component placeholders memoize the placeholders' props. (A
/// placeholder that is not memoized is rendered again, and what that
/// writes is for its render function to say.)
pub proof fn lemma_diff_identical_is_silent<T, P: AnyProps<T>>(
    pass: Pass<T, P>,
    node: VNode<P>,
    height: usize,
    nodes: Seq<usize>,
    idx: usize,
    parent: Option<ElementRef>,
)
    requires
        nodes.len() <= usize::MAX,
        pass.settled(node, height, nodes, idx as int),
    ensures
        idx + size(node) <= nodes.len(),
        pass.diff_node(node, node, height, nodes, idx, parent) == (Step {
            pass,
            nodes,
            result: Ok((idx + size(node)) as usize),
        }),
    decreases node,
{
    match node {
        VNode::Text { text } => {},
        VNode::Element { tag, attrs, children } => {
            let id = ElementId(nodes[idx as int]);
            lemma_patch_identical(pass.edits, attrs@, id, 0);
            lemma_diff_identical_children(
                pass,
                children@,
                0,
                height,
                nodes,
                (idx + 1) as usize,
                Some(ElementRef { element: id }),
            );
            assert(crate::diff::model::same_shape(node, node));
            assert((Pass { edits: pass.edits, ..pass }) == pass);
        },
        VNode::Component(component) => {},
    }
}

/// Idempotence, for the children of an element.
pub proof fn lemma_diff_identical_children<T, P: AnyProps<T>>(
    pass: Pass<T, P>,
    children: Seq<VNode<P>>,
    i: int,
    height: usize,
    nodes: Seq<usize>,
    idx: usize,
    parent: Option<ElementRef>,
)
    requires
        nodes.len() <= usize::MAX,
        0 <= i <= children.len(),
        idx <= nodes.len(),
        pass.settled_from(children, i, height, nodes, idx as int),
    ensures
        idx + size_from(children, i) <= nodes.len(),
        pass.diff_children(children, children, i, height, nodes, idx, parent) == (Step {
            pass,
            nodes,
            result: Ok((idx + size_from(children, i)) as usize),
        }),
    decreases children, children.len() - i,
{
    if i < children.len() {
        lemma_diff_identical_is_silent(pass, children[i], height, nodes, idx, parent);
        lemma_diff_identical_children(
            pass,
            children,
            i + 1,
            height,
            nodes,
            (idx + size(children[i])) as usize,
            parent,
        );
    }
}

/// A placeholder of another component replaces the instance, whatever
/// the props of the two are.
pub proof fn lemma_other_component_is_replaced<T, P: AnyProps<T>>(
    pass: Pass<T, P>,
    new: VComponent<P>,
    mounted: VComponent<P>,
    height: usize,
    nodes: Seq<usize>,
    idx: usize,
    parent: Option<ElementRef>,
)
    requires
        mounted.render_fn != new.render_fn,
    ensures
        forall|scope_id: ScopeId|
            #[trigger] pass.diff_vcomponent(new, mounted, scope_id, height, nodes, idx, parent)
                == pass.replace_vcomponent(new, height, nodes, idx, parent),
        idx < nodes.len() ==> ({
            let replaced = pass.replace_vcomponent(new, height, nodes, idx, parent);
            pass.diff_node(
                VNode::Component(mounted),
                VNode::Component(new),
                height,
                nodes,
                idx,
                parent,
            ) == (Step {
                pass: replaced.pass,
                nodes: replaced.nodes,
                result: match replaced.result {
                    Ok(_) => Ok((idx + 1) as usize),
                    Err(e) => Err(e),
                },
            })
        }),
{
}

/// Memoization. If the scope's props memoize the new props of the same
/// component, the diff does nothing at all: no mutation is written, no
/// render runs, and the dom with the stored tree is as it was. (It is
/// refused, with as little effect, where the scope is not mounted below
/// the tree.)
pub proof fn lemma_memoized_props_change_nothing<T, P: AnyProps<T>>(
    pass: Pass<T, P>,
    new: VComponent<P>,
    mounted: VComponent<P>,
    scope_id: ScopeId,
    height: usize,
    nodes: Seq<usize>,
    idx: usize,
    parent: Option<ElementRef>,
)
    requires
        mounted.render_fn == new.render_fn,
        pass.dom.memoized(scope_id, new.props) == Some(true),
    ensures
        pass.diff_vcomponent(new, mounted, scope_id, height, nodes, idx, parent) == (Step {
            pass,
            nodes,
            result: if crate::diff::model::deeper(pass.dom.height_of(scope_id), height) {
                Ok(())
            } else {
                Err(DiffError::InvariantViolation)
            },
        }),
{
}

impl<T, P> DomView<T, P> {
    /// Every scope that `self` has at a depth less than `bound` is in
    /// `after` exactly as it is in `self`, with its props, its stored tree
    /// and its mount.
    pub open spec fn keeps_below(self, after: Self, bound: int) -> bool {
        &&& self.scopes.len() <= after.scopes.len()
        &&& forall|i: int|
            #![trigger self.scopes[i]]
            #![trigger after.scopes[i]]
            0 <= i < self.scopes.len() && self.scopes[i] is Some
                && self.scopes[i]->0.mount.height < bound ==> after.scopes[i] == self.scopes[i]
    }
}

impl<T, P> DomView<T, P> {
    /// Every scope that `self` has is in `after` exactly as it is in
    /// `self`, with its props, its stored tree and its mount.
    pub open spec fn keeps_all(self, after: Self) -> bool {
        &&& self.scopes.len() <= after.scopes.len()
        &&& forall|i: int|
            #![trigger self.scopes[i]]
            #![trigger after.scopes[i]]
            0 <= i < self.scopes.len() && self.scopes[i] is Some ==> after.scopes[i]
                == self.scopes[i]
    }

    /// Every scope that `self` has, but `scope`, is in `after` exactly as
    /// it is in `self`; and `scope`, if `self` has it, is in `after` with
    /// its props, its stored tree and its depth.
    pub open spec fn keeps_all_but(self, after: Self, scope: ScopeId) -> bool {
        &&& self.scopes.len() <= after.scopes.len()
        &&& forall|i: int|
            #![trigger self.scopes[i]]
            #![trigger after.scopes[i]]
            0 <= i < self.scopes.len() && self.scopes[i] is Some && i != scope.0
                ==> after.scopes[i] == self.scopes[i]
        &&& self.has_scope(scope) ==> {
            &&& after.has_scope(scope)
            &&& after.scope(scope).name == self.scope(scope).name
            &&& after.scope(scope).props == self.scope(scope).props
            &&& after.scope(scope).last_rendered_node == self.scope(scope).last_rendered_node
            &&& after.scope(scope).mount.height == self.scope(scope).mount.height
        }
    }
}

/// Mounting a component touches no scope that was there: it neither
/// renders one again nor tears one down. The scope it adds is there
/// afterwards, one level below the tree that holds the placeholder.
pub proof fn lemma_create_component_node_keeps_all<T, P: AnyProps<T>>(
    pass: Pass<T, P>,
    component: VComponent<P>,
    height: usize,
    nodes: Seq<usize>,
    idx: usize,
    parent: Option<ElementRef>,
)
    ensures
        pass.dom.keeps_all(
            pass.create_component_node(component, height, nodes, idx, parent).pass.dom,
        ),
        idx <= nodes.len() && pass.dom.scopes.len() <= usize::MAX ==> !pass.dom.has_scope(
            pass.dom.next_scope(),
        ) && pass.create_component_node(component, height, nodes, idx, parent).pass.dom.has_scope(
            pass.dom.next_scope(),
        ),
        idx <= nodes.len() && pass.dom.scopes.len() <= usize::MAX ==> pass.create_component_node(
            component,
            height,
            nodes,
            idx,
            parent,
        ).pass.dom.height_of(pass.dom.next_scope()) == Some(crate::diff::model::below(height)),
    decreases crate::diff::model::level(height), 1int,
{
    if idx <= nodes.len() && pass.dom.scopes.len() <= usize::MAX {
        let scope = pass.dom.next_scope();
        let added = pass.dom.new_scope(
            component.props,
            component.name,
            crate::diff::model::below(height),
        );
        assert(pass.dom.keeps_all(added));
        assert(added.has_scope(scope));
        if height < MAX_SCOPE_HEIGHT {
            let tree = added.rendered(scope)->0;
            let ran = pass.with_dom(added.run_scope(scope));
            lemma_create_scope_keeps_others(ran, scope, *tree.node(), parent);
        }
    }
}

/// Creating a tree touches no scope that was there.
pub proof fn lemma_create_keeps_all<T, P: AnyProps<T>>(
    pass: Pass<T, P>,
    node: VNode<P>,
    height: usize,
    nodes: Seq<usize>,
    idx: usize,
    parent: Option<ElementRef>,
)
    ensures
        pass.dom.keeps_all(pass.create(node, height, nodes, idx, parent).pass.dom),
    decreases crate::diff::model::level(height), 2int, node,
{
    match node {
        VNode::Text { text } => {},
        VNode::Element { tag, attrs, children } => {
            if idx <= nodes.len() {
                let id = pass.dom.elements.next();
                let opened = Pass {
                    dom: pass.dom.claim_element(),
                    edits: crate::diff::model::set_attributes(
                        pass.edits.push(Mutation::CreateElement { tag, id }),
                        attrs@,
                        id,
                    ),
                };
                lemma_create_children_keeps_all(
                    opened,
                    children@,
                    0,
                    height,
                    nodes.insert(idx as int, id.0),
                    (idx + 1) as usize,
                    Some(ElementRef { element: id }),
                );
            }
        },
        VNode::Component(component) => {
            if idx <= nodes.len() {
                lemma_create_component_node_keeps_all(
                    pass,
                    component,
                    height,
                    nodes.insert(idx as int, usize::MAX),
                    idx,
                    parent,
                );
            }
        },
    }
}

/// Creating the children of an element touches no scope that was there.
pub proof fn lemma_create_children_keeps_all<T, P: AnyProps<T>>(
    pass: Pass<T, P>,
    children: Seq<VNode<P>>,
    i: int,
    height: usize,
    nodes: Seq<usize>,
    idx: usize,
    parent: Option<ElementRef>,
)
    ensures
        pass.dom.keeps_all(
            pass.create_children(children, i, height, nodes, idx, parent).pass.dom,
        ),
    decreases crate::diff::model::level(height), 2int, children, children.len() - i,
{
    if 0 <= i < children.len() {
        let made = pass.create(children[i], height, nodes, idx, parent);
        lemma_create_keeps_all(pass, children[i], height, nodes, idx, parent);
        match made.result {
            Ok(next) => {
                lemma_create_children_keeps_all(
                    made.pass,
                    children,
                    i + 1,
                    height,
                    made.nodes,
                    next,
                    parent,
                );
            },
            Err(_) => {},
        }
    }
}

/// Creating the tree of a scope touches no other scope that was there,
/// and leaves the scope its props and its stored tree.
pub proof fn lemma_create_scope_keeps_others<T, P: AnyProps<T>>(
    pass: Pass<T, P>,
    scope: ScopeId,
    node: VNode<P>,
    parent: Option<ElementRef>,
)
    ensures
        pass.dom.keeps_all_but(pass.create_scope(scope, node, parent).pass.dom, scope),
    decreases pass.scope_level(scope), 9int,
{
    match pass.dom.height_of(scope) {
        None => {},
        Some(height) => {
            let pushed = pass.with_dom(pass.dom.with_runtime(pass.dom.runtime.push_scope(scope)));
            lemma_create_keeps_all(pushed, node, height, Seq::empty(), 0, parent);
            let made = pushed.create(node, height, Seq::empty(), 0, parent);
            assert(pushed.dom.scopes[scope.0 as int] is Some);
            assert(made.pass.dom.scopes[scope.0 as int] == pushed.dom.scopes[scope.0 as int]);
        },
    }
}

/// A log that continues a log that continues a third continues the third.
pub proof fn lemma_continues<A>(a: Seq<A>, b: Seq<A>, c: Seq<A>)
    requires
        a.is_prefix_of(b),
        b.is_prefix_of(c),
    ensures
        a.is_prefix_of(c),
{
    assert(a =~= c.subrange(0, a.len() as int)) by {
        assert forall|j: int| 0 <= j < a.len() implies a[j] == c.subrange(0, a.len() as int)[j] by {
            assert(a[j] == b.subrange(0, a.len() as int)[j]);
            assert(b[j] == c.subrange(0, b.len() as int)[j]);
        }
    }
}

/// Patching attributes only appends to the log.
pub proof fn lemma_patch_appends(
    edits: Seq<Mutation>,
    mounted: Seq<Attribute>,
    new: Seq<Attribute>,
    id: ElementId,
    i: int,
)
    ensures
        edits.is_prefix_of(crate::diff::model::patch_attributes(edits, mounted, new, id, i)),
    decreases new.len() - i,
{
    if 0 <= i < new.len() {
        let next = if crate::diff::model::must_set(mounted, new, i) {
            edits.push(Mutation::SetAttribute { name: new[i].name, value: new[i].value, id })
        } else {
            edits
        };
        lemma_patch_appends(next, mounted, new, id, i + 1);
        assert(edits.is_prefix_of(next)) by {
            assert(edits =~= next.subrange(0, edits.len() as int));
        }
        lemma_continues(
            edits,
            next,
            crate::diff::model::patch_attributes(edits, mounted, new, id, i),
        );
    } else {
        assert(edits =~= edits.subrange(0, edits.len() as int));
    }
}

/// Mounting a component touches no scope that is not below the tree.
pub proof fn lemma_create_component_node_keeps<T, P: AnyProps<T>>(
    pass: Pass<T, P>,
    component: VComponent<P>,
    height: usize,
    nodes: Seq<usize>,
    idx: usize,
    parent: Option<ElementRef>,
)
    ensures
        pass.dom.keeps_below(
            pass.create_component_node(component, height, nodes, idx, parent).pass.dom,
            height + 1,
        ),
        pass.edits.is_prefix_of(pass.create_component_node(component, height, nodes, idx, parent).pass.edits),
    decreases crate::diff::model::level(height), 1int,
{
    if idx <= nodes.len() && pass.dom.scopes.len() <= usize::MAX {
        let scope = pass.dom.next_scope();
        let added = pass.dom.new_scope(
            component.props,
            component.name,
            crate::diff::model::below(height),
        );
        assert(pass.dom.keeps_below(added, height + 1));
        if height < MAX_SCOPE_HEIGHT {
            let tree = added.rendered(scope)->0;
            let ran = pass.with_dom(added.run_scope(scope));
            assert(pass.dom.keeps_below(ran.dom, height + 1));
            lemma_create_scope_keeps(ran, scope, *tree.node(), parent);
        }
    }
}

/// Creating a tree touches no scope that is not below it, and only
/// appends to the log.
pub proof fn lemma_create_keeps<T, P: AnyProps<T>>(
    pass: Pass<T, P>,
    node: VNode<P>,
    height: usize,
    nodes: Seq<usize>,
    idx: usize,
    parent: Option<ElementRef>,
)
    ensures
        pass.dom.keeps_below(pass.create(node, height, nodes, idx, parent).pass.dom, height + 1),
        pass.edits.is_prefix_of(pass.create(node, height, nodes, idx, parent).pass.edits),
    decreases crate::diff::model::level(height), 2int, node,
{
    match node {
        VNode::Text { text } => {},
        VNode::Element { tag, attrs, children } => {
            if idx <= nodes.len() {
                let id = pass.dom.elements.next();
                let opened = Pass {
                    dom: pass.dom.claim_element(),
                    edits: crate::diff::model::set_attributes(
                        pass.edits.push(Mutation::CreateElement { tag, id }),
                        attrs@,
                        id,
                    ),
                };
                lemma_create_children_keeps(
                    opened,
                    children@,
                    0,
                    height,
                    nodes.insert(idx as int, id.0),
                    (idx + 1) as usize,
                    Some(ElementRef { element: id }),
                );
                let filled = opened.create_children(
                    children@,
                    0,
                    height,
                    nodes.insert(idx as int, id.0),
                    (idx + 1) as usize,
                    Some(ElementRef { element: id }),
                );
                assert(pass.edits.is_prefix_of(opened.edits)) by {
                    assert(pass.edits =~= opened.edits.subrange(0, pass.edits.len() as int));
                }
                lemma_continues(pass.edits, opened.edits, filled.pass.edits);
                let made = pass.create(node, height, nodes, idx, parent);
                assert(filled.pass.edits.is_prefix_of(made.pass.edits)) by {
                    assert(filled.pass.edits =~= made.pass.edits.subrange(
                        0,
                        filled.pass.edits.len() as int,
                    ));
                }
                lemma_continues(pass.edits, filled.pass.edits, made.pass.edits);
            }
        },
        VNode::Component(component) => {
            if idx <= nodes.len() {
                lemma_create_component_node_keeps(
                    pass,
                    component,
                    height,
                    nodes.insert(idx as int, usize::MAX),
                    idx,
                    parent,
                );
            }
        },
    }
}

/// Creating the children of an element touches no scope that is not
/// below them.
pub proof fn lemma_create_children_keeps<T, P: AnyProps<T>>(
    pass: Pass<T, P>,
    children: Seq<VNode<P>>,
    i: int,
    height: usize,
    nodes: Seq<usize>,
    idx: usize,
    parent: Option<ElementRef>,
)
    ensures
        pass.dom.keeps_below(
            pass.create_children(children, i, height, nodes, idx, parent).pass.dom,
            height + 1,
        ),
        pass.edits.is_prefix_of(pass.create_children(children, i, height, nodes, idx, parent).pass.edits),
    decreases crate::diff::model::level(height), 2int, children, children.len() - i,
{
    if 0 <= i < children.len() {
        let made = pass.create(children[i], height, nodes, idx, parent);
        lemma_create_keeps(pass, children[i], height, nodes, idx, parent);
        match made.result {
            Ok(next) => {
                lemma_create_children_keeps(
                    made.pass,
                    children,
                    i + 1,
                    height,
                    made.nodes,
                    next,
                    parent,
                );
            },
            Err(_) => {},
        }
    }
}

/// Creating the tree of a scope touches no scope above that scope.
pub proof fn lemma_create_scope_keeps<T, P: AnyProps<T>>(
    pass: Pass<T, P>,
    scope: ScopeId,
    node: VNode<P>,
    parent: Option<ElementRef>,
)
    ensures
        match pass.dom.height_of(scope) {
            Some(height) => pass.dom.keeps_below(
                pass.create_scope(scope, node, parent).pass.dom,
                height as int,
            ),
            None => pass.create_scope(scope, node, parent).pass == pass,
        },
        pass.edits.is_prefix_of(pass.create_scope(scope, node, parent).pass.edits),
    decreases pass.scope_level(scope), 9int,
{
    match pass.dom.height_of(scope) {
        None => {},
        Some(height) => {
            let pushed = pass.with_dom(pass.dom.with_runtime(pass.dom.runtime.push_scope(scope)));
            lemma_create_keeps(pushed, node, height, Seq::empty(), 0, parent);
        },
    }
}

/// Unmounting a tree touches no scope that is not below it, and only
/// appends to the log.
pub proof fn lemma_remove_node_keeps<T, P: AnyProps<T>>(
    pass: Pass<T, P>,
    node: VNode<P>,
    height: usize,
    nodes: Seq<usize>,
    idx: usize,
    removal: Removal,
)
    ensures
        pass.dom.keeps_below(
            pass.remove_node(node, height, nodes, idx, removal).pass.dom,
            height + 1,
        ),
        pass.edits.is_prefix_of(pass.remove_node(node, height, nodes, idx, removal).pass.edits),
    decreases crate::diff::model::level(height), 3int, node,
{
    match crate::diff::model::entry(nodes, idx) {
        None => {},
        Some(id) => match node {
            VNode::Text { text } => {},
            VNode::Element { tag, attrs, children } => {
                lemma_remove_children_keeps(
                    pass,
                    children@,
                    0,
                    height,
                    nodes.remove(idx as int),
                    idx,
                );
            },
            VNode::Component(component) => {
                if crate::diff::model::deeper(pass.dom.height_of(ScopeId(id)), height) {
                    lemma_remove_component_node_keeps(pass, ScopeId(id), removal);
                }
            },
        },
    }
}

/// Unmounting the children of an element touches no scope that is not
/// below them.
pub proof fn lemma_remove_children_keeps<T, P: AnyProps<T>>(
    pass: Pass<T, P>,
    children: Seq<VNode<P>>,
    i: int,
    height: usize,
    nodes: Seq<usize>,
    idx: usize,
)
    ensures
        pass.dom.keeps_below(
            pass.remove_children(children, i, height, nodes, idx).pass.dom,
            height + 1,
        ),
        pass.edits.is_prefix_of(pass.remove_children(children, i, height, nodes, idx).pass.edits),
    decreases crate::diff::model::level(height), 3int, children, children.len() - i,
{
    if 0 <= i < children.len() {
        let removed = pass.remove_node(children[i], height, nodes, idx, Removal::Silent);
        lemma_remove_node_keeps(pass, children[i], height, nodes, idx, Removal::Silent);
        match removed.result {
            Ok(_) => {
                lemma_remove_children_keeps(
                    removed.pass,
                    children,
                    i + 1,
                    height,
                    removed.nodes,
                    idx,
                );
            },
            Err(_) => {},
        }
    }
}

/// Unmounting a scope touches no scope above it.
pub proof fn lemma_remove_component_node_keeps<T, P: AnyProps<T>>(
    pass: Pass<T, P>,
    scope: ScopeId,
    removal: Removal,
)
    ensures
        match pass.dom.height_of(scope) {
            Some(height) => pass.dom.keeps_below(
                pass.remove_component_node(scope, removal).pass.dom,
                height as int,
            ),
            None => pass.remove_component_node(scope, removal).pass == pass,
        },
        pass.edits.is_prefix_of(pass.remove_component_node(scope, removal).pass.edits),
    decreases pass.scope_level(scope), 9int,
{
    if pass.dom.has_scope(scope) {
        let state = pass.dom.scope(scope);
        let taken = pass.with_dom(pass.dom.remove_state(scope));
        match state.last_rendered_node {
            Some(tree) => {
                lemma_remove_node_keeps(
                    taken,
                    *tree.node(),
                    state.mount.height,
                    state.mount.nodes,
                    0,
                    removal,
                );
            },
            None => {},
        }
    }
}

/// Replacing a component instance touches no scope that is not below the
/// tree.
pub proof fn lemma_replace_vcomponent_keeps<T, P: AnyProps<T>>(
    pass: Pass<T, P>,
    new: VComponent<P>,
    height: usize,
    nodes: Seq<usize>,
    idx: usize,
    parent: Option<ElementRef>,
)
    ensures
        pass.dom.keeps_below(
            pass.replace_vcomponent(new, height, nodes, idx, parent).pass.dom,
            height + 1,
        ),
        pass.edits.is_prefix_of(pass.replace_vcomponent(new, height, nodes, idx, parent).pass.edits),
    decreases crate::diff::model::level(height), 4int,
{
    match crate::diff::model::entry(nodes, idx) {
        None => {},
        Some(scope) => {
            let made = pass.create_component_node(new, height, nodes, idx, parent);
            lemma_create_component_node_keeps(pass, new, height, nodes, idx, parent);
            match made.result {
                Err(_) => {},
                Ok(m) => {
                    if crate::diff::model::deeper(made.pass.dom.height_of(ScopeId(scope)), height) {
                        lemma_remove_component_node_keeps(
                            made.pass,
                            ScopeId(scope),
                            Removal::ReplaceWith(m),
                        );
                    }
                },
            }
        },
    }
}

/// Diffing a component placeholder touches no scope that is not below
/// the tree.
pub proof fn lemma_diff_vcomponent_keeps<T, P: AnyProps<T>>(
    pass: Pass<T, P>,
    new: VComponent<P>,
    mounted: VComponent<P>,
    scope_id: ScopeId,
    height: usize,
    nodes: Seq<usize>,
    idx: usize,
    parent: Option<ElementRef>,
)
    ensures
        pass.dom.keeps_below(
            pass.diff_vcomponent(new, mounted, scope_id, height, nodes, idx, parent).pass.dom,
            height + 1,
        ),
        pass.edits.is_prefix_of(pass.diff_vcomponent(new, mounted, scope_id, height, nodes, idx, parent).pass.edits),
    decreases crate::diff::model::level(height), 5int,
{
    if mounted.render_fn != new.render_fn {
        lemma_replace_vcomponent_keeps(pass, new, height, nodes, idx, parent);
    } else if !crate::diff::model::deeper(pass.dom.height_of(scope_id), height) {
    } else if pass.dom.memoized(scope_id, new.props) == Some(true) {
    } else {
        let updated = pass.with_dom(pass.dom.set_props(scope_id, new.props));
        lemma_run_and_diff_scope_keeps(updated, scope_id);
        let done = updated.run_and_diff_scope(scope_id);
        assert(pass.dom.keeps_below(updated.dom, height + 1));
        lemma_keeps_below_then(
            pass.dom,
            updated.dom,
            done.pass.dom,
            height + 1,
            updated.dom.height_of(scope_id)->0 as int,
        );
    }
}

/// What is kept in two steps is kept over both, down to the lesser bound.
pub proof fn lemma_keeps_below_then<T, P>(
    a: DomView<T, P>,
    b: DomView<T, P>,
    c: DomView<T, P>,
    bound: int,
    bound_next: int,
)
    requires
        a.keeps_below(b, bound),
        b.keeps_below(c, bound_next),
        bound <= bound_next,
    ensures
        a.keeps_below(c, bound),
{
    assert forall|i: int|
        #![trigger a.scopes[i]]
        #![trigger c.scopes[i]]
        0 <= i < a.scopes.len() && a.scopes[i] is Some && a.scopes[i]->0.mount.height
            < bound implies c.scopes[i] == a.scopes[i] by {
        assert(b.scopes[i] == a.scopes[i]);
    }
}

/// Rendering and diffing a scope touches no scope above it, and only
/// appends to the log.
pub proof fn lemma_run_and_diff_scope_keeps<T, P: AnyProps<T>>(pass: Pass<T, P>, scope: ScopeId)
    ensures
        match pass.dom.height_of(scope) {
            Some(height) => pass.dom.keeps_below(
                pass.run_and_diff_scope(scope).pass.dom,
                height as int,
            ),
            None => pass.run_and_diff_scope(scope).pass == pass,
        },
        pass.edits.is_prefix_of(pass.run_and_diff_scope(scope).pass.edits),
    decreases pass.scope_level(scope), 10int,
{
    match pass.dom.rendered(scope) {
        None => {},
        Some(tree) => {
            lemma_diff_scope_keeps(pass.with_dom(pass.dom.run_scope(scope)), scope, tree);
        },
    }
}

/// Diffing a scope touches no scope above it, and only appends to the
/// log.
pub proof fn lemma_diff_scope_keeps<T, P: AnyProps<T>>(
    pass: Pass<T, P>,
    scope: ScopeId,
    new_nodes: RenderReturn<P>,
)
    ensures
        match pass.dom.height_of(scope) {
            Some(height) => pass.dom.keeps_below(
                pass.diff_scope(scope, new_nodes).pass.dom,
                height as int,
            ),
            None => pass.diff_scope(scope, new_nodes).pass == pass,
        },
        pass.edits.is_prefix_of(pass.diff_scope(scope, new_nodes).pass.edits),
    decreases pass.scope_level(scope), 9int,
{
    match pass.dom.rendered_of(scope) {
        None => {},
        Some(stored) => {
            if stored.is_ready() == new_nodes.is_ready() {
                let mount = pass.dom.scope(scope).mount;
                let taken = pass.with_dom(
                    pass.dom.with_runtime(pass.dom.runtime.push_scope(scope)).set_rendered(
                        scope,
                        None,
                    ).take_mount(scope),
                );
                lemma_diff_node_keeps(
                    taken,
                    *stored.node(),
                    *new_nodes.node(),
                    mount.height,
                    mount.nodes,
                    0,
                    mount.parent,
                );
            }
        },
    }
}

/// Replacing a tree touches no scope that is not below it.
pub proof fn lemma_replace_keeps<T, P: AnyProps<T>>(
    pass: Pass<T, P>,
    mounted: VNode<P>,
    new: VNode<P>,
    height: usize,
    nodes: Seq<usize>,
    idx: usize,
    parent: Option<ElementRef>,
)
    ensures
        pass.dom.keeps_below(
            pass.replace(mounted, new, height, nodes, idx, parent).pass.dom,
            height + 1,
        ),
        pass.edits.is_prefix_of(pass.replace(mounted, new, height, nodes, idx, parent).pass.edits),
    decreases crate::diff::model::level(height), 6int,
{
    let made = pass.create(new, height, nodes, idx, parent);
    lemma_create_keeps(pass, new, height, nodes, idx, parent);
    match made.result {
        Err(_) => {},
        Ok(next) => {
            lemma_remove_node_keeps(
                made.pass,
                mounted,
                height,
                made.nodes,
                next,
                Removal::ReplaceWith(1),
            );
        },
    }
}

/// A diff leaves alone what is not below it: every scope at the depth of
/// the tree or above is after the diff exactly as it was before. And it
/// only appends to the log: what was written before it stays written,
/// in its order.
pub proof fn lemma_diff_node_keeps<T, P: AnyProps<T>>(
    pass: Pass<T, P>,
    mounted: VNode<P>,
    new: VNode<P>,
    height: usize,
    nodes: Seq<usize>,
    idx: usize,
    parent: Option<ElementRef>,
)
    ensures
        pass.dom.keeps_below(
            pass.diff_node(mounted, new, height, nodes, idx, parent).pass.dom,
            height + 1,
        ),
        pass.edits.is_prefix_of(pass.diff_node(mounted, new, height, nodes, idx, parent).pass.edits),
    decreases crate::diff::model::level(height), 7int, new,
{
    if mounted is Text && new is Text {
    } else if crate::diff::model::same_shape(mounted, new) {
        match crate::diff::model::entry(nodes, idx) {
            None => {},
            Some(id) => {
                let patched = Pass {
                    edits: crate::diff::model::patch_attributes(
                        pass.edits,
                        mounted->attrs@,
                        new->attrs@,
                        ElementId(id),
                        0,
                    ),
                    ..pass
                };
                lemma_patch_appends(pass.edits, mounted->attrs@, new->attrs@, ElementId(id), 0);
                lemma_diff_children_keeps(
                    patched,
                    mounted->children@,
                    new->children@,
                    0,
                    height,
                    nodes,
                    (idx + 1) as usize,
                    Some(ElementRef { element: ElementId(id) }),
                );
                lemma_continues(
                    pass.edits,
                    patched.edits,
                    pass.diff_node(mounted, new, height, nodes, idx, parent).pass.edits,
                );
            },
        }
    } else if mounted is Component && new is Component {
        match crate::diff::model::entry(nodes, idx) {
            None => {},
            Some(scope) => {
                lemma_diff_vcomponent_keeps(
                    pass,
                    new->0,
                    mounted->0,
                    ScopeId(scope),
                    height,
                    nodes,
                    idx,
                    parent,
                );
            },
        }
    } else {
        lemma_replace_keeps(pass, mounted, new, height, nodes, idx, parent);
    }
}

/// Diffing the children of an element touches no scope that is not below
/// them.
pub proof fn lemma_diff_children_keeps<T, P: AnyProps<T>>(
    pass: Pass<T, P>,
    mounted: Seq<VNode<P>>,
    new: Seq<VNode<P>>,
    i: int,
    height: usize,
    nodes: Seq<usize>,
    idx: usize,
    parent: Option<ElementRef>,
)
    ensures
        pass.dom.keeps_below(
            pass.diff_children(mounted, new, i, height, nodes, idx, parent).pass.dom,
            height + 1,
        ),
        pass.edits.is_prefix_of(pass.diff_children(mounted, new, i, height, nodes, idx, parent).pass.edits),
    decreases crate::diff::model::level(height), 7int, new, new.len() - i,
{
    if 0 <= i < new.len() {
        let diffed = pass.diff_node(mounted[i], new[i], height, nodes, idx, parent);
        lemma_diff_node_keeps(pass, mounted[i], new[i], height, nodes, idx, parent);
        match diffed.result {
            Ok(next) => {
                lemma_diff_children_keeps(
                    diffed.pass,
                    mounted,
                    new,
                    i + 1,
                    height,
                    diffed.nodes,
                    next,
                    parent,
                );
            },
            Err(_) => {},
        }
    }
}

/// Memoization refused. If the scope's props do not memoize the new
/// props of the same component, the scope takes the new props and its
/// render function runs once on them, with the scope on top of the scope
/// stack. What follows is the diff of that one render against the stored
/// tree: if it goes through, the render is the scope's stored tree; if it
/// is given up, the old tree stays stored. Either way the scope has the
/// new props.
pub proof fn lemma_changed_props_render_once<T, P: AnyProps<T>>(
    pass: Pass<T, P>,
    new: VComponent<P>,
    mounted: VComponent<P>,
    scope_id: ScopeId,
    height: usize,
    nodes: Seq<usize>,
    idx: usize,
    parent: Option<ElementRef>,
)
    requires
        mounted.render_fn == new.render_fn,
        crate::diff::model::deeper(pass.dom.height_of(scope_id), height),
        pass.dom.memoized(scope_id, new.props) == Some(false),
    ensures
        ({
            let tree = new.props.rendered(pass.dom.runtime.push_scope(scope_id));
            let rendered = pass.with_dom(
                pass.dom.set_props(scope_id, new.props).with_runtime(
                    new.props.rendered_runtime(pass.dom.runtime.push_scope(scope_id)).pop_scope(),
                ),
            );
            let diffed = rendered.diff_scope(scope_id, tree);
            let step = pass.diff_vcomponent(new, mounted, scope_id, height, nodes, idx, parent);
            &&& step.result == diffed.result
            &&& step.nodes == nodes
            &&& step.pass.edits == diffed.pass.edits
            &&& step.pass.dom.has_scope(scope_id)
            &&& step.pass.dom.scope(scope_id).props == new.props
            &&& step.result is Ok ==> step.pass.dom.rendered_of(scope_id) == Some(tree)
            &&& step.result is Err ==> step.pass.dom.rendered_of(scope_id)
                == pass.dom.rendered_of(scope_id)
        }),
{
    let tree = new.props.rendered(pass.dom.runtime.push_scope(scope_id));
    let updated = pass.with_dom(pass.dom.set_props(scope_id, new.props));
    let rendered = updated.with_dom(updated.dom.run_scope(scope_id));
    lemma_diff_scope_stores(rendered, scope_id, tree);
}

/// A diff of a scope that goes through stores the new tree and leaves
/// the scope's props alone. One that is given up leaves the old tree
/// stored: a scope with a stored tree is never left without one.
pub proof fn lemma_diff_scope_stores<T, P: AnyProps<T>>(
    pass: Pass<T, P>,
    scope: ScopeId,
    new_nodes: RenderReturn<P>,
)
    ensures
        ({
            let diffed = pass.diff_scope(scope, new_nodes);
            &&& diffed.result is Ok ==> diffed.pass.dom.rendered_of(scope) == Some(new_nodes)
            &&& diffed.result is Err ==> diffed.pass.dom.rendered_of(scope)
                == pass.dom.rendered_of(scope)
            &&& pass.dom.has_scope(scope) ==> {
                &&& diffed.pass.dom.has_scope(scope)
                &&& diffed.pass.dom.scope(scope).props == pass.dom.scope(scope).props
                &&& diffed.pass.dom.height_of(scope) == pass.dom.height_of(scope)
            }
        }),
{
    match pass.dom.rendered_of(scope) {
        None => {},
        Some(stored) => {
            if stored.is_ready() == new_nodes.is_ready() {
                let mount = pass.dom.scope(scope).mount;
                let taken = pass.with_dom(
                    pass.dom.with_runtime(pass.dom.runtime.push_scope(scope)).set_rendered(
                        scope,
                        None,
                    ).take_mount(scope),
                );
                lemma_diff_node_keeps(
                    taken,
                    *stored.node(),
                    *new_nodes.node(),
                    mount.height,
                    mount.nodes,
                    0,
                    mount.parent,
                );
                let diffed = taken.diff_node(
                    *stored.node(),
                    *new_nodes.node(),
                    mount.height,
                    mount.nodes,
                    0,
                    mount.parent,
                );
                assert(taken.dom.scopes[scope.0 as int] is Some);
                assert(diffed.pass.dom.scopes[scope.0 as int] == taken.dom.scopes[scope.0 as int]);
            }
        },
    }
}

impl<T, P> DomView<T, P> {
    /// Every scope that `self` has at a depth greater than `height` is in
    /// `other` exactly as it is in `self`.
    pub open spec fn agrees_below(self, other: Self, height: usize) -> bool {
        &&& self.scopes.len() <= other.scopes.len()
        &&& forall|i: int|
            #![trigger self.scopes[i]]
            #![trigger other.scopes[i]]
            0 <= i < self.scopes.len() && self.scopes[i] is Some
                && self.scopes[i]->0.mount.height > height ==> other.scopes[i] == self.scopes[i]
    }
}

/// Whether a tree is settled goes by the scopes below it alone.
pub proof fn lemma_settled_goes_by_scopes_below<T, P: AnyProps<T>>(
    pass: Pass<T, P>,
    other: Pass<T, P>,
    node: VNode<P>,
    height: usize,
    nodes: Seq<usize>,
    idx: int,
)
    requires
        pass.settled(node, height, nodes, idx),
        pass.dom.agrees_below(other.dom, height),
    ensures
        other.settled(node, height, nodes, idx),
    decreases node,
{
    match node {
        VNode::Text { text } => {},
        VNode::Element { tag, attrs, children } => {
            lemma_settled_from_goes_by_scopes_below(
                pass,
                other,
                children@,
                0,
                height,
                nodes,
                idx + 1,
            );
        },
        VNode::Component(component) => {
            let scope = ScopeId(nodes[idx]);
            assert(pass.dom.scopes[scope.0 as int] is Some);
        },
    }
}

/// Whether the children of an element are settled goes by the scopes
/// below them alone.
pub proof fn lemma_settled_from_goes_by_scopes_below<T, P: AnyProps<T>>(
    pass: Pass<T, P>,
    other: Pass<T, P>,
    children: Seq<VNode<P>>,
    i: int,
    height: usize,
    nodes: Seq<usize>,
    idx: int,
)
    requires
        pass.settled_from(children, i, height, nodes, idx),
        pass.dom.agrees_below(other.dom, height),
    ensures
        other.settled_from(children, i, height, nodes, idx),
    decreases children, children.len() - i,
{
    if 0 <= i < children.len() {
        lemma_settled_goes_by_scopes_below(pass, other, children[i], height, nodes, idx);
        lemma_settled_from_goes_by_scopes_below(
            pass,
            other,
            children,
            i + 1,
            height,
            nodes,
            idx + size(children[i]),
        );
    }
}

/// Idempotence, for a scope. Diffing the stored tree of a scope against
/// an identical render writes no mutation and leaves the dom exactly as
/// it was, provided that the scopes mounted for the tree's component
/// placeholders memoize the placeholders' props.
pub proof fn lemma_diff_scope_identical_is_silent<T, P: AnyProps<T>>(
    pass: Pass<T, P>,
    scope: ScopeId,
    tree: RenderReturn<P>,
)
    requires
        pass.dom.rendered_of(scope) == Some(tree),
        pass.dom.scope(scope).mount.nodes.len() <= usize::MAX,
        pass.settled(
            *tree.node(),
            pass.dom.scope(scope).mount.height,
            pass.dom.scope(scope).mount.nodes,
            0,
        ),
    ensures
        pass.diff_scope(scope, tree).result == Ok::<(), DiffError>(()),
        pass.diff_scope(scope, tree).pass.edits == pass.edits,
        pass.diff_scope(scope, tree).pass.dom.scopes == pass.dom.scopes,
        pass.diff_scope(scope, tree).pass.dom.runtime == pass.dom.runtime,
        pass.diff_scope(scope, tree).pass.dom.elements == pass.dom.elements,
        pass.diff_scope(scope, tree).pass.dom.free_scopes == pass.dom.free_scopes,
{
    let mount = pass.dom.scope(scope).mount;
    let taken = pass.with_dom(
        pass.dom.with_runtime(pass.dom.runtime.push_scope(scope)).set_rendered(
            scope,
            None,
        ).take_mount(scope),
    );
    lemma_settled_goes_by_scopes_below(pass, taken, *tree.node(), mount.height, mount.nodes, 0);
    lemma_diff_identical_is_silent(
        taken,
        *tree.node(),
        mount.height,
        mount.nodes,
        0,
        mount.parent,
    );
    let after = pass.diff_scope(scope, tree).pass.dom;
    assert(after.scopes =~= pass.dom.scopes);
    assert(after.runtime.scope_stack =~= pass.dom.runtime.scope_stack);
}

/// The tree holds no component placeholder: it is made of host nodes
/// alone.
pub open spec fn hosted<P>(node: VNode<P>) -> bool
    decreases node,
{
    match node {
        VNode::Text { text } => true,
        VNode::Element { tag, attrs, children } => hosted_from(children@, 0),
        VNode::Component(component) => false,
    }
}

/// The trees `nodes[i..]` are made of host nodes alone.
pub open spec fn hosted_from<P>(nodes: Seq<VNode<P>>, i: int) -> bool
    decreases nodes, nodes.len() - i,
{
    if 0 <= i < nodes.len() {
        hosted(nodes[i]) && hosted_from(nodes, i + 1)
    } else {
        true
    }
}

/// `after` is `before` with the `removed` entries from position `idx` on
/// replaced by `added` entries: what stood before them and what stood
/// behind them is kept.
#[verifier::opaque]
pub open spec fn spliced(
    before: Seq<usize>,
    after: Seq<usize>,
    idx: int,
    removed: int,
    added: int,
) -> bool {
    &&& after.len() == before.len() - removed + added
    &&& forall|j: int| 0 <= j < idx ==> #[trigger] after[j] == before[j]
    &&& forall|j: int|
        idx + added <= j < after.len() ==> #[trigger] after[j] == before[j - added + removed]
}

/// A splice moves the length by what it adds less what it removes.
pub proof fn lemma_spliced_len(
    before: Seq<usize>,
    after: Seq<usize>,
    idx: int,
    removed: int,
    added: int,
)
    requires
        spliced(before, after, idx, removed, added),
    ensures
        after.len() == before.len() - removed + added,
{
    reveal(spliced);
}

/// Entries that stay as they are count as replaced by themselves.
pub proof fn lemma_spliced_same(nodes: Seq<usize>, idx: int, count: int)
    ensures
        spliced(nodes, nodes, idx, count, count),
{
    reveal(spliced);
}

/// An entry put in is a splice of one entry for none.
pub proof fn lemma_spliced_insert(nodes: Seq<usize>, idx: int, value: usize)
    requires
        0 <= idx <= nodes.len(),
    ensures
        spliced(nodes, nodes.insert(idx, value), idx, 0, 1),
{
    reveal(spliced);
}

/// An entry recorded in place of another is a splice of one for one.
pub proof fn lemma_spliced_update(nodes: Seq<usize>, idx: int, value: usize)
    requires
        0 <= idx < nodes.len(),
    ensures
        spliced(nodes, nodes.update(idx, value), idx, 1, 1),
{
    reveal(spliced);
}

/// An entry put in, whatever is recorded in it then, is a splice of
/// one entry for none.
pub proof fn lemma_spliced_room(nodes: Seq<usize>, idx: int, value: usize)
    requires
        0 <= idx <= nodes.len(),
    ensures
        spliced(nodes, nodes.insert(idx, usize::MAX).update(idx, value), idx, 0, 1),
{
    reveal(spliced);
}

/// An entry taken out is a splice of none for one.
pub proof fn lemma_spliced_remove(nodes: Seq<usize>, idx: int)
    requires
        0 <= idx < nodes.len(),
    ensures
        spliced(nodes, nodes.remove(idx), idx, 1, 0),
{
    reveal(spliced);
}

/// A splice, and then one right behind what it added, make one splice.
pub proof fn lemma_spliced_then(
    a: Seq<usize>,
    b: Seq<usize>,
    c: Seq<usize>,
    idx: int,
    removed: int,
    added: int,
    removed_next: int,
    added_next: int,
)
    requires
        0 <= idx,
        0 <= removed,
        0 <= added,
        0 <= removed_next,
        0 <= added_next,
        spliced(a, b, idx, removed, added),
        spliced(b, c, idx + added, removed_next, added_next),
    ensures
        spliced(a, c, idx, removed + removed_next, added + added_next),
{
    reveal(spliced);
    assert forall|j: int| 0 <= j < idx implies #[trigger] c[j] == a[j] by {
        assert(c[j] == b[j]);
    }
    assert forall|j: int| idx + added + added_next <= j < c.len() implies #[trigger] c[j] == a[j
        - (added + added_next) + (removed + removed_next)] by {
        let k = j - added_next + removed_next;
        assert(c[j] == b[k]);
        assert(idx + added <= k < b.len());
        assert(b[k] == a[k - added + removed]);
    }
}

/// Bookkeeping of creation. A tree that was created takes one entry of
/// the mount for each of its nodes, from position `idx` on, and moves
/// nothing else. A tree of host nodes is always created.
pub proof fn lemma_create_fills<T, P: AnyProps<T>>(
    pass: Pass<T, P>,
    node: VNode<P>,
    height: usize,
    nodes: Seq<usize>,
    idx: usize,
    parent: Option<ElementRef>,
)
    requires
        idx <= nodes.len(),
        nodes.len() + size(node) <= usize::MAX,
    ensures
        ({
            let made = pass.create(node, height, nodes, idx, parent);
            &&& made.result matches Ok(next) ==> next == idx + size(node) && spliced(
                nodes,
                made.nodes,
                idx as int,
                0,
                size(node) as int,
            )
            &&& hosted(node) ==> made.result is Ok
        }),
    decreases node,
{
    lemma_spliced_insert(nodes, idx as int, 0);
    match node {
        VNode::Text { text } => {
            lemma_spliced_insert(nodes, idx as int, pass.dom.elements.next().0);
        },
        VNode::Element { tag, attrs, children } => {
            let id = pass.dom.elements.next();
            let opened = Pass {
                dom: pass.dom.claim_element(),
                edits: crate::diff::model::set_attributes(
                    pass.edits.push(Mutation::CreateElement { tag, id }),
                    attrs@,
                    id,
                ),
            };
            let first = nodes.insert(idx as int, id.0);
            lemma_spliced_insert(nodes, idx as int, id.0);
            lemma_create_children_fills(
                opened,
                children@,
                0,
                height,
                first,
                (idx + 1) as usize,
                Some(ElementRef { element: id }),
            );
            let filled = opened.create_children(
                children@,
                0,
                height,
                first,
                (idx + 1) as usize,
                Some(ElementRef { element: id }),
            );
            if filled.result is Ok {
                lemma_spliced_then(
                    nodes,
                    first,
                    filled.nodes,
                    idx as int,
                    0,
                    1,
                    0,
                    size_from(children@, 0) as int,
                );
            }
        },
        VNode::Component(component) => {
            lemma_spliced_room(nodes, idx as int, pass.dom.next_scope().0);
        },
    }
}

/// Bookkeeping of creation, for the children of an element.
pub proof fn lemma_create_children_fills<T, P: AnyProps<T>>(
    pass: Pass<T, P>,
    children: Seq<VNode<P>>,
    i: int,
    height: usize,
    nodes: Seq<usize>,
    idx: usize,
    parent: Option<ElementRef>,
)
    requires
        0 <= i <= children.len(),
        idx <= nodes.len(),
        nodes.len() + size_from(children, i) <= usize::MAX,
    ensures
        ({
            let made = pass.create_children(children, i, height, nodes, idx, parent);
            &&& made.result matches Ok(next) ==> next == idx + size_from(children, i)
                && spliced(nodes, made.nodes, idx as int, 0, size_from(children, i) as int)
            &&& hosted_from(children, i) ==> made.result is Ok
        }),
    decreases children, children.len() - i,
{
    if i < children.len() {
        let made = pass.create(children[i], height, nodes, idx, parent);
        lemma_create_fills(pass, children[i], height, nodes, idx, parent);
        match made.result {
            Ok(next) => {
                lemma_spliced_len(nodes, made.nodes, idx as int, 0, size(children[i]) as int);
                lemma_create_children_fills(
                    made.pass,
                    children,
                    i + 1,
                    height,
                    made.nodes,
                    next,
                    parent,
                );
                let rest = made.pass.create_children(
                    children,
                    i + 1,
                    height,
                    made.nodes,
                    next,
                    parent,
                );
                if rest.result is Ok {
                    lemma_spliced_then(
                        nodes,
                        made.nodes,
                        rest.nodes,
                        idx as int,
                        0,
                        size(children[i]) as int,
                        0,
                        size_from(children, i + 1) as int,
                    );
                }
            },
            Err(_) => {},
        }
    } else {
        lemma_spliced_same(nodes, idx as int, 0);
    }
}

/// Bookkeeping of removal. A tree that was unmounted gives up the entry
/// of each of its nodes, from position `idx` on, and moves nothing else.
/// A tree of host nodes whose entries are there is always unmounted.
pub proof fn lemma_remove_node_empties<T, P: AnyProps<T>>(
    pass: Pass<T, P>,
    node: VNode<P>,
    height: usize,
    nodes: Seq<usize>,
    idx: usize,
    removal: Removal,
)
    requires
        idx + size(node) <= nodes.len() <= usize::MAX,
    ensures
        ({
            let removed = pass.remove_node(node, height, nodes, idx, removal);
            &&& removed.result is Ok ==> spliced(
                nodes,
                removed.nodes,
                idx as int,
                size(node) as int,
                0,
            )
            &&& hosted(node) ==> removed.result is Ok
        }),
    decreases node,
{
    lemma_spliced_remove(nodes, idx as int);
    match node {
        VNode::Text { text } => {},
        VNode::Element { tag, attrs, children } => {
            let first = nodes.remove(idx as int);
            lemma_remove_children_empties(pass, children@, 0, height, first, idx);
            let emptied = pass.remove_children(children@, 0, height, first, idx);
            if emptied.result is Ok {
                lemma_spliced_then(
                    nodes,
                    first,
                    emptied.nodes,
                    idx as int,
                    1,
                    0,
                    size_from(children@, 0) as int,
                    0,
                );
            }
        },
        VNode::Component(component) => {},
    }
}

/// Bookkeeping of removal, for the children of an element.
pub proof fn lemma_remove_children_empties<T, P: AnyProps<T>>(
    pass: Pass<T, P>,
    children: Seq<VNode<P>>,
    i: int,
    height: usize,
    nodes: Seq<usize>,
    idx: usize,
)
    requires
        0 <= i <= children.len(),
        idx + size_from(children, i) <= nodes.len() <= usize::MAX,
    ensures
        ({
            let removed = pass.remove_children(children, i, height, nodes, idx);
            &&& removed.result is Ok ==> spliced(
                nodes,
                removed.nodes,
                idx as int,
                size_from(children, i) as int,
                0,
            )
            &&& hosted_from(children, i) ==> removed.result is Ok
        }),
    decreases children, children.len() - i,
{
    if i < children.len() {
        let removed = pass.remove_node(children[i], height, nodes, idx, Removal::Silent);
        lemma_remove_node_empties(pass, children[i], height, nodes, idx, Removal::Silent);
        match removed.result {
            Ok(_) => {
                lemma_spliced_len(nodes, removed.nodes, idx as int, size(children[i]) as int, 0);
                lemma_remove_children_empties(
                    removed.pass,
                    children,
                    i + 1,
                    height,
                    removed.nodes,
                    idx,
                );
                let rest = removed.pass.remove_children(
                    children,
                    i + 1,
                    height,
                    removed.nodes,
                    idx,
                );
                if rest.result is Ok {
                    lemma_spliced_then(
                        nodes,
                        removed.nodes,
                        rest.nodes,
                        idx as int,
                        size(children[i]) as int,
                        0,
                        size_from(children, i + 1) as int,
                        0,
                    );
                }
            },
            Err(_) => {},
        }
    } else {
        lemma_spliced_same(nodes, idx as int, 0);
    }
}

/// Bookkeeping of a diff. After a diff that went through, the mount
/// holds the entries of the new tree where those of the old tree were,
/// one for each node, and nothing else has moved. A diff of host trees,
/// the entries of the old one being there, always goes through.
pub proof fn lemma_diff_node_splices<T, P: AnyProps<T>>(
    pass: Pass<T, P>,
    mounted: VNode<P>,
    new: VNode<P>,
    height: usize,
    nodes: Seq<usize>,
    idx: usize,
    parent: Option<ElementRef>,
)
    requires
        idx + size(mounted) <= nodes.len(),
        nodes.len() + size(new) <= usize::MAX,
    ensures
        ({
            let diffed = pass.diff_node(mounted, new, height, nodes, idx, parent);
            &&& diffed.result matches Ok(next) ==> next == idx + size(new) && spliced(
                nodes,
                diffed.nodes,
                idx as int,
                size(mounted) as int,
                size(new) as int,
            )
            &&& hosted(mounted) && hosted(new) ==> diffed.result is Ok
        }),
    decreases new,
{
    if mounted is Text && new is Text {
        lemma_spliced_same(nodes, idx as int, 1);
    } else if crate::diff::model::same_shape(mounted, new) {
        let id = nodes[idx as int];
        let patched = Pass {
            edits: crate::diff::model::patch_attributes(
                pass.edits,
                mounted->attrs@,
                new->attrs@,
                ElementId(id),
                0,
            ),
            ..pass
        };
        let here = Some(ElementRef { element: ElementId(id) });
        lemma_diff_children_splices(
            patched,
            mounted->children@,
            new->children@,
            0,
            height,
            nodes,
            (idx + 1) as usize,
            here,
        );
        let diffed = patched.diff_children(
            mounted->children@,
            new->children@,
            0,
            height,
            nodes,
            (idx + 1) as usize,
            here,
        );
        if diffed.result is Ok {
            lemma_spliced_same(nodes, idx as int, 1);
            lemma_spliced_then(
                nodes,
                nodes,
                diffed.nodes,
                idx as int,
                1,
                1,
                size_from(mounted->children@, 0) as int,
                size_from(new->children@, 0) as int,
            );
        }
    } else if mounted is Component && new is Component {
        let scope = ScopeId(nodes[idx as int]);
        let diffed = pass.diff_vcomponent(new->0, mounted->0, scope, height, nodes, idx, parent);
        if diffed.result is Ok {
            if mounted->0.render_fn != new->0.render_fn {
                lemma_spliced_update(nodes, idx as int, pass.dom.next_scope().0);
            } else {
                lemma_spliced_same(nodes, idx as int, 1);
            }
        }
    } else {
        let made = pass.create(new, height, nodes, idx, parent);
        lemma_create_fills(pass, new, height, nodes, idx, parent);
        match made.result {
            Ok(next) => {
                lemma_spliced_len(nodes, made.nodes, idx as int, 0, size(new) as int);
                lemma_remove_node_empties(
                    made.pass,
                    mounted,
                    height,
                    made.nodes,
                    next,
                    Removal::ReplaceWith(1),
                );
                let removed = made.pass.remove_node(
                    mounted,
                    height,
                    made.nodes,
                    next,
                    Removal::ReplaceWith(1),
                );
                if removed.result is Ok {
                    lemma_spliced_then(
                        nodes,
                        made.nodes,
                        removed.nodes,
                        idx as int,
                        0,
                        size(new) as int,
                        size(mounted) as int,
                        0,
                    );
                }
            },
            Err(_) => {},
        }
    }
}

/// Bookkeeping of a diff, for the children of two elements of the same
/// shape.
pub proof fn lemma_diff_children_splices<T, P: AnyProps<T>>(
    pass: Pass<T, P>,
    mounted: Seq<VNode<P>>,
    new: Seq<VNode<P>>,
    i: int,
    height: usize,
    nodes: Seq<usize>,
    idx: usize,
    parent: Option<ElementRef>,
)
    requires
        0 <= i <= new.len(),
        mounted.len() == new.len(),
        idx + size_from(mounted, i) <= nodes.len(),
        nodes.len() + size_from(new, i) <= usize::MAX,
    ensures
        ({
            let diffed = pass.diff_children(mounted, new, i, height, nodes, idx, parent);
            &&& diffed.result matches Ok(next) ==> next == idx + size_from(new, i) && spliced(
                nodes,
                diffed.nodes,
                idx as int,
                size_from(mounted, i) as int,
                size_from(new, i) as int,
            )
            &&& hosted_from(mounted, i) && hosted_from(new, i) ==> diffed.result is Ok
        }),
    decreases new, new.len() - i,
{
    if i < new.len() {
        let diffed = pass.diff_node(mounted[i], new[i], height, nodes, idx, parent);
        lemma_diff_node_splices(pass, mounted[i], new[i], height, nodes, idx, parent);
        match diffed.result {
            Ok(next) => {
                lemma_spliced_len(
                    nodes,
                    diffed.nodes,
                    idx as int,
                    size(mounted[i]) as int,
                    size(new[i]) as int,
                );
                lemma_diff_children_splices(
                    diffed.pass,
                    mounted,
                    new,
                    i + 1,
                    height,
                    diffed.nodes,
                    next,
                    parent,
                );
                let rest = diffed.pass.diff_children(
                    mounted,
                    new,
                    i + 1,
                    height,
                    diffed.nodes,
                    next,
                    parent,
                );
                if rest.result is Ok {
                    lemma_spliced_then(
                        nodes,
                        diffed.nodes,
                        rest.nodes,
                        idx as int,
                        size(mounted[i]) as int,
                        size(new[i]) as int,
                        size_from(mounted, i + 1) as int,
                        size_from(new, i + 1) as int,
                    );
                }
            },
            Err(_) => {},
        }
    } else {
        lemma_spliced_same(nodes, idx as int, 0);
    }
}

/// Bookkeeping of a scope that is created. After `create_scope` went
/// through, the mount of the scope has one entry for each node of the
/// tree, and hangs under `parent`. Where the tree is made of host nodes
/// and the scope exists, `create_scope` goes through.
pub proof fn lemma_create_scope_fits<T, P: AnyProps<T>>(
    pass: Pass<T, P>,
    scope: ScopeId,
    node: VNode<P>,
    parent: Option<ElementRef>,
)
    requires
        size(node) <= usize::MAX,
    ensures
        ({
            let made = pass.create_scope(scope, node, parent);
            &&& made.result is Ok ==> {
                &&& made.pass.dom.has_scope(scope)
                &&& made.pass.dom.scope(scope).mount.nodes.len() == size(node)
                &&& made.pass.dom.scope(scope).mount.parent == parent
                &&& made.pass.dom.height_of(scope) == pass.dom.height_of(scope)
            }
            &&& hosted(node) && pass.dom.has_scope(scope) ==> made.result is Ok
        }),
{
    match pass.dom.height_of(scope) {
        None => {},
        Some(height) => {
            let pushed = pass.with_dom(pass.dom.with_runtime(pass.dom.runtime.push_scope(scope)));
            lemma_create_fills(pushed, node, height, Seq::empty(), 0, parent);
            lemma_create_keeps(pushed, node, height, Seq::empty(), 0, parent);
            let made = pushed.create(node, height, Seq::empty(), 0, parent);
            if made.result is Ok {
                lemma_spliced_len(Seq::empty(), made.nodes, 0, 0, size(node) as int);
            }
            assert(pushed.dom.scopes[scope.0 as int] is Some);
            assert(made.pass.dom.scopes[scope.0 as int] == pushed.dom.scopes[scope.0 as int]);
        },
    }
}

/// Bookkeeping of a scope that is diffed. If the mount of the scope had
/// one entry for each node of the stored tree, then after a diff that
/// went through it has one for each node of the new tree. Where both
/// trees are made of host nodes and agree in readiness, the diff goes
/// through.
pub proof fn lemma_diff_scope_fits<T, P: AnyProps<T>>(
    pass: Pass<T, P>,
    scope: ScopeId,
    new_nodes: RenderReturn<P>,
)
    requires
        pass.dom.rendered_of(scope) is Some,
        pass.dom.scope(scope).mount.nodes.len() == size(*pass.dom.rendered_of(scope)->0.node()),
        size(*pass.dom.rendered_of(scope)->0.node()) + size(*new_nodes.node()) <= usize::MAX,
    ensures
        ({
            let diffed = pass.diff_scope(scope, new_nodes);
            &&& diffed.result is Ok ==> {
                &&& diffed.pass.dom.rendered_of(scope) == Some(new_nodes)
                &&& diffed.pass.dom.scope(scope).mount.nodes.len() == size(*new_nodes.node())
            }
            &&& hosted(*pass.dom.rendered_of(scope)->0.node()) && hosted(*new_nodes.node())
                && pass.dom.rendered_of(scope)->0.is_ready() == new_nodes.is_ready()
                ==> diffed.result is Ok
        }),
{
    let stored = pass.dom.rendered_of(scope)->0;
    if stored.is_ready() == new_nodes.is_ready() {
        let mount = pass.dom.scope(scope).mount;
        let taken = pass.with_dom(
            pass.dom.with_runtime(pass.dom.runtime.push_scope(scope)).set_rendered(
                scope,
                None,
            ).take_mount(scope),
        );
        lemma_diff_node_splices(
            taken,
            *stored.node(),
            *new_nodes.node(),
            mount.height,
            mount.nodes,
            0,
            mount.parent,
        );
        lemma_diff_scope_stores(pass, scope, new_nodes);
        lemma_diff_node_keeps(
            taken,
            *stored.node(),
            *new_nodes.node(),
            mount.height,
            mount.nodes,
            0,
            mount.parent,
        );
        let diffed = taken.diff_node(
            *stored.node(),
            *new_nodes.node(),
            mount.height,
            mount.nodes,
            0,
            mount.parent,
        );
        if diffed.result is Ok {
            lemma_spliced_len(
                mount.nodes,
                diffed.nodes,
                0,
                size(*stored.node()) as int,
                size(*new_nodes.node()) as int,
            );
        }
        assert(taken.dom.scopes[scope.0 as int] is Some);
        assert(diffed.pass.dom.scopes[scope.0 as int] == taken.dom.scopes[scope.0 as int]);
    }
}

impl<T, P: AnyProps<T>> Pass<T, P> {
    /// The mounted tree is at rest: it is mounted from position `idx` of
    /// the mount on, and each of its component placeholders is mounted on
    /// a scope further down that either memoizes the placeholder's props
    /// or, rendered on them, renders again the tree that it has stored,
    /// that tree being at rest in its turn.
    pub open spec fn calm(
        self,
        node: VNode<P>,
        height: usize,
        nodes: Seq<usize>,
        idx: int,
        parent: Option<ElementRef>,
    ) -> bool
        decreases crate::diff::model::level(height), node,
    {
        &&& 0 <= idx < nodes.len()
        &&& match node {
            VNode::Text { text } => true,
            VNode::Element { tag, attrs, children } => self.calm_from(
                children@,
                0,
                height,
                nodes,
                idx + 1,
                Some(ElementRef { element: ElementId(nodes[idx]) }),
            ),
            VNode::Component(component) => {
                let scope = ScopeId(nodes[idx]);
                &&& crate::diff::model::deeper(self.dom.height_of(scope), height)
                &&& self.dom.memoized(scope, component.props) == Some(true) || {
                    let updated = self.with_dom(self.dom.set_props(scope, component.props));
                    let tree = updated.dom.rendered(scope)->0;
                    let ran = updated.with_dom(updated.dom.run_scope(scope));
                    let mount = ran.dom.scope(scope).mount;
                    let taken = ran.with_dom(
                        ran.dom.with_runtime(ran.dom.runtime.push_scope(scope)).set_rendered(
                            scope,
                            None,
                        ).take_mount(scope),
                    );
                    &&& ran.dom.rendered_of(scope) == Some(tree)
                    &&& mount.nodes.len() <= usize::MAX
                    &&& taken.calm(*tree.node(), mount.height, mount.nodes, 0, mount.parent)
                }
            },
        }
    }

    /// The trees `children[i..]` are at rest, each in the pass that the
    /// diff of its elder siblings leaves.
    pub open spec fn calm_from(
        self,
        children: Seq<VNode<P>>,
        i: int,
        height: usize,
        nodes: Seq<usize>,
        idx: int,
        parent: Option<ElementRef>,
    ) -> bool
        decreases crate::diff::model::level(height), children, children.len() - i,
    {
        if 0 <= i < children.len() {
            &&& self.calm(children[i], height, nodes, idx, parent)
            &&& self.diff_node(
                children[i],
                children[i],
                height,
                nodes,
                idx as usize,
                parent,
            ).pass.calm_from(children, i + 1, height, nodes, idx + size(children[i]), parent)
        } else {
            true
        }
    }
}

/// Idempotence, through renders. Diffing a mounted tree at rest against
/// an identical tree writes no mutation and moves no entry of the mount:
/// a placeholder that is memoized is passed over, and one that is not is
/// rendered, gives the tree it had stored, and that tree is diffed
/// against itself in turn.
pub proof fn lemma_diff_calm_is_silent<T, P: AnyProps<T>>(
    pass: Pass<T, P>,
    node: VNode<P>,
    height: usize,
    nodes: Seq<usize>,
    idx: usize,
    parent: Option<ElementRef>,
)
    requires
        nodes.len() <= usize::MAX,
        pass.calm(node, height, nodes, idx as int, parent),
    ensures
        idx + size(node) <= nodes.len(),
        pass.diff_node(node, node, height, nodes, idx, parent).result == Ok::<usize, DiffError>(
            (idx + size(node)) as usize,
        ),
        pass.diff_node(node, node, height, nodes, idx, parent).nodes == nodes,
        pass.diff_node(node, node, height, nodes, idx, parent).pass.edits == pass.edits,
    decreases crate::diff::model::level(height), node,
{
    match node {
        VNode::Text { text } => {},
        VNode::Element { tag, attrs, children } => {
            let id = ElementId(nodes[idx as int]);
            lemma_patch_identical(pass.edits, attrs@, id, 0);
            assert(crate::diff::model::same_shape(node, node));
            assert((Pass { edits: pass.edits, ..pass }) == pass);
            lemma_diff_calm_children(
                pass,
                children@,
                0,
                height,
                nodes,
                (idx + 1) as usize,
                Some(ElementRef { element: id }),
            );
        },
        VNode::Component(component) => {
            let scope = ScopeId(nodes[idx as int]);
            if pass.dom.memoized(scope, component.props) != Some(true) {
                let updated = pass.with_dom(pass.dom.set_props(scope, component.props));
                let tree = updated.dom.rendered(scope)->0;
                let ran = updated.with_dom(updated.dom.run_scope(scope));
                let mount = ran.dom.scope(scope).mount;
                let taken = ran.with_dom(
                    ran.dom.with_runtime(ran.dom.runtime.push_scope(scope)).set_rendered(
                        scope,
                        None,
                    ).take_mount(scope),
                );
                lemma_diff_calm_is_silent(
                    taken,
                    *tree.node(),
                    mount.height,
                    mount.nodes,
                    0,
                    mount.parent,
                );
                let inner = taken.diff_node(
                    *tree.node(),
                    *tree.node(),
                    mount.height,
                    mount.nodes,
                    0,
                    mount.parent,
                );
                assert(inner.result is Ok && inner.pass.edits == pass.edits);
                let diffed = ran.diff_scope(scope, tree);
                assert(diffed.result is Ok && diffed.pass.edits == pass.edits);
                let done = updated.run_and_diff_scope(scope);
                assert(updated.dom.rendered(scope) == Some(tree));
                assert(done.result is Ok && done.pass.edits == pass.edits);
                let step = pass.diff_vcomponent(
                    component,
                    component,
                    scope,
                    height,
                    nodes,
                    idx,
                    parent,
                );
                assert(step.result is Ok && step.pass.edits == pass.edits && step.nodes == nodes);
            }
        },
    }
}

/// Idempotence, through renders, for the children of an element.
pub proof fn lemma_diff_calm_children<T, P: AnyProps<T>>(
    pass: Pass<T, P>,
    children: Seq<VNode<P>>,
    i: int,
    height: usize,
    nodes: Seq<usize>,
    idx: usize,
    parent: Option<ElementRef>,
)
    requires
        nodes.len() <= usize::MAX,
        0 <= i <= children.len(),
        idx <= nodes.len(),
        pass.calm_from(children, i, height, nodes, idx as int, parent),
    ensures
        idx + size_from(children, i) <= nodes.len(),
        pass.diff_children(children, children, i, height, nodes, idx, parent).result == Ok::<
            usize,
            DiffError,
        >((idx + size_from(children, i)) as usize),
        pass.diff_children(children, children, i, height, nodes, idx, parent).nodes == nodes,
        pass.diff_children(children, children, i, height, nodes, idx, parent).pass.edits
            == pass.edits,
    decreases crate::diff::model::level(height), children, children.len() - i,
{
    if i < children.len() {
        lemma_diff_calm_is_silent(pass, children[i], height, nodes, idx, parent);
        let first = pass.diff_node(children[i], children[i], height, nodes, idx, parent);
        lemma_diff_calm_children(
            first.pass,
            children,
            i + 1,
            height,
            nodes,
            (idx + size(children[i])) as usize,
            parent,
        );
    }
}

} // verus!
