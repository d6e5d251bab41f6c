//! What a diff pass computes, as functions on the model of the virtual
//! runtime: the mutations written, the mount bookkeeping and the runtime
//! that it leaves, and whether it was given up.

use crate::mutations::{Mutation, Removal};
use crate::nodes::{AnyProps, Attribute, ElementId, ElementRef, MountView, RenderReturn, VComponent, VNode};
use crate::runtime::ScopeId;
use crate::virtual_dom::{DiffError, DomView, MAX_SCOPE_HEIGHT};
use vstd::prelude::*;

verus! {

/// Nesting levels left below depth `height`.
pub open spec fn level(height: usize) -> nat {
    if height <= MAX_SCOPE_HEIGHT {
        (MAX_SCOPE_HEIGHT - height) as nat
    } else {
        0
    }
}

/// The depth at which a component of a tree at depth `height` is
/// registered: one level down, and no deeper than the bound.
pub open spec fn below(height: usize) -> usize {
    if height < MAX_SCOPE_HEIGHT {
        (height + 1) as usize
    } else {
        MAX_SCOPE_HEIGHT
    }
}

/// A scope at depth `child` may be entered from a tree at depth `height`.
pub open spec fn deeper(child: Option<usize>, height: usize) -> bool {
    child matches Some(h) && height < MAX_SCOPE_HEIGHT && h > height
}

/// The entry of a mount at position `idx`.
pub open spec fn entry(nodes: Seq<usize>, idx: usize) -> Option<usize> {
    if idx < nodes.len() {
        Some(nodes[idx as int])
    } else {
        None
    }
}

/// Two elements that a diff patches in place: the same tag, the same
/// attribute names in the same order, and as many children.
pub open spec fn same_shape<P>(old: VNode<P>, new: VNode<P>) -> bool {
    &&& old is Element
    &&& new is Element
    &&& old->tag@ == new->tag@
    &&& old->attrs@.len() == new->attrs@.len()
    &&& old->children@.len() == new->children@.len()
    &&& forall|i: int|
        0 <= i < old->attrs@.len() ==> (#[trigger] old->attrs@[i]).name@ == new->attrs@[i].name@
}

/// The log after every attribute of a new element was set.
pub open spec fn set_attributes(edits: Seq<Mutation>, attrs: Seq<Attribute>, id: ElementId) -> Seq<
    Mutation,
> {
    edits + Seq::new(
        attrs.len(),
        |i: int| Mutation::SetAttribute { name: attrs[i].name, value: attrs[i].value, id },
    )
}

/// The value of attribute `k` differs between the old and the new
/// element.
pub open spec fn differs(old: Seq<Attribute>, new: Seq<Attribute>, k: int) -> bool {
    old[k].value@ != new[k].value@
}

/// Attribute `i` of the new element has to be set on the host: its value
/// differs from the old one, or an attribute of the same name that
/// stands before it had to be set, and would else hide it.
pub open spec fn must_set(old: Seq<Attribute>, new: Seq<Attribute>, i: int) -> bool {
    exists|k: int| 0 <= k <= i && #[trigger] differs(old, new, k) && new[k].name@ == new[i].name@
}

/// The log after those of the attributes `new[i..]` that have to be set
/// were set, in order.
pub open spec fn patch_attributes(
    edits: Seq<Mutation>,
    old: Seq<Attribute>,
    new: Seq<Attribute>,
    id: ElementId,
    i: int,
) -> Seq<Mutation>
    decreases new.len() - i,
{
    if 0 <= i < new.len() {
        patch_attributes(
            if must_set(old, new, i) {
                edits.push(Mutation::SetAttribute { name: new[i].name, value: new[i].value, id })
            } else {
                edits
            },
            old,
            new,
            id,
            i + 1,
        )
    } else {
        edits
    }
}

/// A diff pass under way: the virtual runtime, and the mutations written.
pub struct Pass<T, P> {
    pub dom: DomView<T, P>,
    pub edits: Seq<Mutation>,
}

/// A step on a mounted tree: the pass and the entries of the mount after
/// it, with its result.
pub struct Step<T, P, R> {
    pub pass: Pass<T, P>,
    pub nodes: Seq<usize>,
    pub result: Result<R, DiffError>,
}

/// A step on a scope: the pass after it, with its result.
pub struct Outcome<T, P, R> {
    pub pass: Pass<T, P>,
    pub result: Result<R, DiffError>,
}

impl<T, P, R> Step<T, P, R> {
    /// The executable step left exactly this: the mount, the dom, the log
    /// and the result.
    pub open spec fn matches_run(
        self,
        before: MountView,
        mount: MountView,
        dom: DomView<T, P>,
        edits: Seq<Mutation>,
        result: Result<R, DiffError>,
    ) -> bool {
        &&& mount == (MountView { nodes: self.nodes, ..before })
        &&& dom == self.pass.dom
        &&& edits == self.pass.edits
        &&& result == self.result
    }
}

impl<T, P, R> Outcome<T, P, R> {
    pub open spec fn matches_run(
        self,
        dom: DomView<T, P>,
        edits: Seq<Mutation>,
        result: Result<R, DiffError>,
    ) -> bool {
        &&& dom == self.pass.dom
        &&& edits == self.pass.edits
        &&& result == self.result
    }
}

impl<T, P> Pass<T, P> {
    pub open spec fn with_dom(self, dom: DomView<T, P>) -> Self {
        Pass { dom, ..self }
    }

    pub open spec fn emit(self, mutation: Mutation) -> Self {
        Pass { edits: self.edits.push(mutation), ..self }
    }

    pub open spec fn emit_removal(self, id: ElementId, removal: Removal) -> Self {
        match removal {
            Removal::Silent => self,
            Removal::Remove => self.emit(Mutation::Remove { id }),
            Removal::ReplaceWith(m) => self.emit(Mutation::ReplaceWith { id, m }),
        }
    }

    pub open spec fn fail<R>(self, nodes: Seq<usize>, error: DiffError) -> Step<T, P, R> {
        Step { pass: self, nodes, result: Err(error) }
    }

    /// Levels left below the scope, none if it does not exist.
    pub open spec fn scope_level(self, scope: ScopeId) -> nat {
        match self.dom.height_of(scope) {
            Some(h) => level(h),
            None => 0,
        }
    }
}

impl<T, P: AnyProps<T>> Pass<T, P> {
    /// Mounts the component: a new scope one level down takes a copy of
    /// the props and is recorded at position `idx` of the mount, in place
    /// of the entry there or as a new last entry; no other entry moves.
    /// Then the scope is rendered and its tree is created, unless the
    /// mount is too deep already: a scope beyond the bound is registered
    /// at the bound and not rendered. The result is the number of nodes
    /// left on the renderer's stack. (A scope table that has outgrown the
    /// machine word takes no scope; none that runs has.)
    pub open spec fn create_component_node(
        self,
        component: VComponent<P>,
        height: usize,
        nodes: Seq<usize>,
        idx: usize,
        parent: Option<ElementRef>,
    ) -> Step<T, P, usize>
        decreases level(height), 1int,
    {
        if idx > nodes.len() {
            self.fail(nodes, DiffError::InvariantViolation)
        } else if self.dom.scopes.len() > usize::MAX {
            self.fail(nodes, DiffError::InvariantViolation)
        } else {
            let scope = self.dom.next_scope();
            let added = self.dom.new_scope(component.props, component.name, below(height));
            let kept = crate::nodes::recorded(nodes, idx, scope.0);
            if height >= MAX_SCOPE_HEIGHT {
                self.with_dom(added).fail(kept, DiffError::TooDeep)
            } else {
                let tree = added.rendered(scope)->0;
                let made = self.with_dom(added.run_scope(scope)).create_scope(
                    scope,
                    *tree.node(),
                    parent,
                );
                Step {
                    pass: made.pass.with_dom(made.pass.dom.set_rendered(scope, Some(tree))),
                    nodes: kept,
                    result: made.result,
                }
            }
        }
    }

    /// Creates the host structure of `node`, recording what each of its
    /// nodes was mounted as from position `idx` of the mount on: room is
    /// made there, one entry for each node, and the entries that stood
    /// from `idx` on move up. The result is the position after the last
    /// entry made.
    pub open spec fn create(
        self,
        node: VNode<P>,
        height: usize,
        nodes: Seq<usize>,
        idx: usize,
        parent: Option<ElementRef>,
    ) -> Step<T, P, usize>
        decreases level(height), 2int, node,
    {
        match node {
            VNode::Text { text } => {
                if idx > nodes.len() {
                    self.fail(nodes, DiffError::InvariantViolation)
                } else {
                    let id = self.dom.elements.next();
                    Step {
                        pass: self.with_dom(self.dom.claim_element()).emit(
                            Mutation::CreateTextNode { value: text, id },
                        ),
                        nodes: nodes.insert(idx as int, id.0),
                        result: Ok((idx + 1) as usize),
                    }
                }
            },
            VNode::Element { tag, attrs, children } => {
                if idx > nodes.len() {
                    self.fail(nodes, DiffError::InvariantViolation)
                } else {
                    let id = self.dom.elements.next();
                    let opened = Pass {
                        dom: self.dom.claim_element(),
                        edits: set_attributes(
                            self.edits.push(Mutation::CreateElement { tag, id }),
                            attrs@,
                            id,
                        ),
                    };
                    let filled = opened.create_children(
                        children@,
                        0,
                        height,
                        nodes.insert(idx as int, id.0),
                        (idx + 1) as usize,
                        Some(ElementRef { element: id }),
                    );
                    match filled.result {
                        Ok(_) => Step {
                            pass: filled.pass.emit(
                                Mutation::AppendChildren { id, m: children@.len() as usize },
                            ),
                            ..filled
                        },
                        Err(_) => filled,
                    }
                }
            },
            VNode::Component(component) => {
                if idx > nodes.len() {
                    self.fail(nodes, DiffError::InvariantViolation)
                } else {
                    let made = self.create_component_node(
                        component,
                        height,
                        nodes.insert(idx as int, usize::MAX),
                        idx,
                        parent,
                    );
                    match made.result {
                        Ok(_) => Step { result: Ok((idx + 1) as usize), ..made },
                        Err(_) => made,
                    }
                }
            },
        }
    }

    /// Creates `children[i..]` in order, stopping at the first failure.
    pub open spec fn create_children(
        self,
        children: Seq<VNode<P>>,
        i: int,
        height: usize,
        nodes: Seq<usize>,
        idx: usize,
        parent: Option<ElementRef>,
    ) -> Step<T, P, usize>
        decreases level(height), 2int, children, children.len() - i,
    {
        if 0 <= i < children.len() {
            let made = self.create(children[i], height, nodes, idx, parent);
            match made.result {
                Ok(next) => made.pass.create_children(
                    children,
                    i + 1,
                    height,
                    made.nodes,
                    next,
                    parent,
                ),
                Err(_) => made,
            }
        } else {
            Step { pass: self, nodes, result: Ok(idx) }
        }
    }

    /// Unmounts `node`, whose entries start at position `idx` of the
    /// mount: the entries are taken out, host ids are given back, nested
    /// scopes are removed, and the removal of the root is written as
    /// `removal` says.
    pub open spec fn remove_node(
        self,
        node: VNode<P>,
        height: usize,
        nodes: Seq<usize>,
        idx: usize,
        removal: Removal,
    ) -> Step<T, P, ()>
        decreases level(height), 3int, node,
    {
        match entry(nodes, idx) {
            None => self.fail(nodes, DiffError::InvariantViolation),
            Some(id) => match node {
                VNode::Text { text } => Step {
                    pass: self.with_dom(self.dom.reclaim_element(ElementId(id))).emit_removal(
                        ElementId(id),
                        removal,
                    ),
                    nodes: nodes.remove(idx as int),
                    result: Ok(()),
                },
                VNode::Element { tag, attrs, children } => {
                    let emptied = self.remove_children(
                        children@,
                        0,
                        height,
                        nodes.remove(idx as int),
                        idx,
                    );
                    match emptied.result {
                        Ok(_) => Step {
                            pass: emptied.pass.with_dom(
                                emptied.pass.dom.reclaim_element(ElementId(id)),
                            ).emit_removal(ElementId(id), removal),
                            ..emptied
                        },
                        Err(_) => emptied,
                    }
                },
                VNode::Component(component) => {
                    if !deeper(self.dom.height_of(ScopeId(id)), height) {
                        self.fail(nodes, DiffError::InvariantViolation)
                    } else {
                        let removed = self.remove_component_node(ScopeId(id), removal);
                        Step {
                            pass: removed.pass,
                            nodes: nodes.remove(idx as int),
                            result: removed.result,
                        }
                    }
                },
            },
        }
    }

    /// Unmounts `children[i..]` in order, silently, stopping at the first
    /// failure. Each starts at position `idx`, its elder siblings' entries
    /// being gone.
    pub open spec fn remove_children(
        self,
        children: Seq<VNode<P>>,
        i: int,
        height: usize,
        nodes: Seq<usize>,
        idx: usize,
    ) -> Step<T, P, ()>
        decreases level(height), 3int, children, children.len() - i,
    {
        if 0 <= i < children.len() {
            let removed = self.remove_node(children[i], height, nodes, idx, Removal::Silent);
            match removed.result {
                Ok(_) => removed.pass.remove_children(children, i + 1, height, removed.nodes, idx),
                Err(_) => removed,
            }
        } else {
            Step { pass: self, nodes, result: Ok(()) }
        }
    }

    /// Replaces the component mounted at position `idx`: the new instance
    /// is mounted in full and recorded at `idx` in place of the old one,
    /// then the old scope is unmounted, its root replaced in the host tree
    /// by what the new instance created. No other entry of the mount
    /// moves.
    pub open spec fn replace_vcomponent(
        self,
        new: VComponent<P>,
        height: usize,
        nodes: Seq<usize>,
        idx: usize,
        parent: Option<ElementRef>,
    ) -> Step<T, P, ()>
        decreases level(height), 4int,
    {
        match entry(nodes, idx) {
            None => self.fail(nodes, DiffError::InvariantViolation),
            Some(scope) => {
                let made = self.create_component_node(new, height, nodes, idx, parent);
                match made.result {
                    Err(e) => Step { pass: made.pass, nodes: made.nodes, result: Err(e) },
                    Ok(m) => {
                        if !deeper(made.pass.dom.height_of(ScopeId(scope)), height) {
                            made.pass.fail(made.nodes, DiffError::InvariantViolation)
                        } else {
                            let removed = made.pass.remove_component_node(
                                ScopeId(scope),
                                Removal::ReplaceWith(m),
                            );
                            Step { pass: removed.pass, nodes: made.nodes, result: removed.result }
                        }
                    },
                }
            },
        }
    }

    /// Diffs a component placeholder against the one mounted on
    /// `scope_id`. Another identity token replaces the instance. The same
    /// token keeps it: if the scope's props memoize the new ones, nothing
    /// happens at all; otherwise the scope takes the new props, is
    /// rendered once, the result is diffed against its stored tree and
    /// stored, and the scope leaves the dirty set.
    pub open spec fn diff_vcomponent(
        self,
        new: VComponent<P>,
        old: VComponent<P>,
        scope_id: ScopeId,
        height: usize,
        nodes: Seq<usize>,
        idx: usize,
        parent: Option<ElementRef>,
    ) -> Step<T, P, ()>
        decreases level(height), 5int,
    {
        if old.render_fn != new.render_fn {
            self.replace_vcomponent(new, height, nodes, idx, parent)
        } else if !deeper(self.dom.height_of(scope_id), height) {
            self.fail(nodes, DiffError::InvariantViolation)
        } else if self.dom.memoized(scope_id, new.props) == Some(true) {
            Step { pass: self, nodes, result: Ok(()) }
        } else {
            let updated = self.with_dom(self.dom.set_props(scope_id, new.props)).run_and_diff_scope(
                scope_id,
            );
            Step { pass: updated.pass, nodes, result: updated.result }
        }
    }

    /// Replaces the mounted tree `old` by `new`: `new` is created in full,
    /// then `old` is unmounted, its root replaced in the host tree by the
    /// root of `new`.
    pub open spec fn replace(
        self,
        old: VNode<P>,
        new: VNode<P>,
        height: usize,
        nodes: Seq<usize>,
        idx: usize,
        parent: Option<ElementRef>,
    ) -> Step<T, P, usize>
        decreases level(height), 6int,
    {
        let made = self.create(new, height, nodes, idx, parent);
        match made.result {
            Err(_) => made,
            Ok(next) => {
                let removed = made.pass.remove_node(
                    old,
                    height,
                    made.nodes,
                    next,
                    Removal::ReplaceWith(1),
                );
                Step {
                    pass: removed.pass,
                    nodes: removed.nodes,
                    result: match removed.result {
                        Ok(_) => Ok(next),
                        Err(e) => Err(e),
                    },
                }
            },
        }
    }

    /// Diffs the mounted tree `old`, whose entries start at position `idx`
    /// of the mount, against `new`. Texts are patched where they differ;
    /// elements of the same shape have their changed attributes patched
    /// and their children diffed in order; component placeholders go by
    /// their identity token; any other pair is replaced. The result is the
    /// position after the entries of `new`.
    pub open spec fn diff_node(
        self,
        old: VNode<P>,
        new: VNode<P>,
        height: usize,
        nodes: Seq<usize>,
        idx: usize,
        parent: Option<ElementRef>,
    ) -> Step<T, P, usize>
        decreases level(height), 7int, new,
    {
        if old is Text && new is Text {
            match entry(nodes, idx) {
                None => self.fail(nodes, DiffError::InvariantViolation),
                Some(id) => Step {
                    pass: if old->text@ == new->text@ {
                        self
                    } else {
                        self.emit(Mutation::SetText { value: new->text, id: ElementId(id) })
                    },
                    nodes,
                    result: Ok((idx + 1) as usize),
                },
            }
        } else if same_shape(old, new) {
            match entry(nodes, idx) {
                None => self.fail(nodes, DiffError::InvariantViolation),
                Some(id) => Pass {
                    edits: patch_attributes(
                        self.edits,
                        old->attrs@,
                        new->attrs@,
                        ElementId(id),
                        0,
                    ),
                    ..self
                }.diff_children(
                    old->children@,
                    new->children@,
                    0,
                    height,
                    nodes,
                    (idx + 1) as usize,
                    Some(ElementRef { element: ElementId(id) }),
                ),
            }
        } else if old is Component && new is Component {
            match entry(nodes, idx) {
                None => self.fail(nodes, DiffError::InvariantViolation),
                Some(scope) => {
                    let diffed = self.diff_vcomponent(
                        new->0,
                        old->0,
                        ScopeId(scope),
                        height,
                        nodes,
                        idx,
                        parent,
                    );
                    Step {
                        pass: diffed.pass,
                        nodes: diffed.nodes,
                        result: match diffed.result {
                            Ok(_) => Ok((idx + 1) as usize),
                            Err(e) => Err(e),
                        },
                    }
                },
            }
        } else {
            self.replace(old, new, height, nodes, idx, parent)
        }
    }

    /// Diffs the children `old[i..]` against `new[i..]` pairwise, in
    /// order, stopping at the first failure.
    pub open spec fn diff_children(
        self,
        old: Seq<VNode<P>>,
        new: Seq<VNode<P>>,
        i: int,
        height: usize,
        nodes: Seq<usize>,
        idx: usize,
        parent: Option<ElementRef>,
    ) -> Step<T, P, usize>
        decreases level(height), 7int, new, new.len() - i,
    {
        if 0 <= i < new.len() {
            let diffed = self.diff_node(old[i], new[i], height, nodes, idx, parent);
            match diffed.result {
                Ok(next) => diffed.pass.diff_children(
                    old,
                    new,
                    i + 1,
                    height,
                    diffed.nodes,
                    next,
                    parent,
                ),
                Err(_) => diffed,
            }
        } else {
            Step { pass: self, nodes, result: Ok(idx) }
        }
    }

    /// Creates the tree `node` as the rendered tree of `scope`, with the
    /// scope on the scope stack for the time, and stores the mount made.
    /// The result is the number of nodes left on the renderer's stack.
    pub open spec fn create_scope(
        self,
        scope: ScopeId,
        node: VNode<P>,
        parent: Option<ElementRef>,
    ) -> Outcome<T, P, usize>
        decreases self.scope_level(scope), 9int,
    {
        match self.dom.height_of(scope) {
            None => Outcome { pass: self, result: Err(DiffError::InvariantViolation) },
            Some(height) => {
                let made = self.with_dom(
                    self.dom.with_runtime(self.dom.runtime.push_scope(scope)),
                ).create(node, height, Seq::empty(), 0, parent);
                let stored = made.pass.dom.set_mount(
                    scope,
                    MountView { parent, height, nodes: made.nodes },
                );
                Outcome {
                    pass: made.pass.with_dom(stored.with_runtime(stored.runtime.pop_scope())),
                    result: match made.result {
                        Ok(_) => Ok(1),
                        Err(e) => Err(e),
                    },
                }
            },
        }
    }

    /// Diffs the stored tree of `scope` against `new_nodes`, with the
    /// scope on the scope stack for the time, and stores `new_nodes` and
    /// the mount. A scope without a stored tree, and a pair of renders of
    /// which one is ready and the other aborted, are refused with
    /// nothing changed. If the diff itself is given up the old tree stays.
    pub open spec fn diff_scope(self, scope: ScopeId, new_nodes: RenderReturn<P>) -> Outcome<
        T,
        P,
        (),
    >
        decreases self.scope_level(scope), 9int,
    {
        match self.dom.rendered_of(scope) {
            None => Outcome { pass: self, result: Err(DiffError::InvariantViolation) },
            Some(old) => {
                if old.is_ready() != new_nodes.is_ready() {
                    Outcome { pass: self, result: Err(DiffError::InvariantViolation) }
                } else {
                    let mount = self.dom.scope(scope).mount;
                    let diffed = self.with_dom(
                        self.dom.with_runtime(self.dom.runtime.push_scope(scope)).set_rendered(
                            scope,
                            None,
                        ).take_mount(scope),
                    ).diff_node(*old.node(), *new_nodes.node(), mount.height, mount.nodes, 0, mount.parent);
                    let stored = diffed.pass.dom.set_rendered(
                        scope,
                        Some(
                            if diffed.result is Ok {
                                new_nodes
                            } else {
                                old
                            },
                        ),
                    ).set_mount(scope, MountView { nodes: diffed.nodes, ..mount });
                    Outcome {
                        pass: diffed.pass.with_dom(stored.with_runtime(stored.runtime.pop_scope())),
                        result: match diffed.result {
                            Ok(_) => Ok(()),
                            Err(e) => Err(e),
                        },
                    }
                }
            },
        }
    }

    /// Renders `scope` once and diffs the result against its stored tree,
    /// which it replaces. Once diffed, the scope leaves the dirty set,
    /// under the depth the runtime has for it.
    pub open spec fn run_and_diff_scope(self, scope: ScopeId) -> Outcome<T, P, ()>
        decreases self.scope_level(scope), 10int,
    {
        match self.dom.rendered(scope) {
            None => Outcome { pass: self, result: Err(DiffError::InvariantViolation) },
            Some(tree) => {
                let diffed = self.with_dom(self.dom.run_scope(scope)).diff_scope(scope, tree);
                match diffed.result {
                    Ok(_) => Outcome {
                        pass: diffed.pass.with_dom(diffed.pass.dom.clear_dirty(scope)),
                        result: Ok(()),
                    },
                    Err(_) => diffed,
                }
            },
        }
    }

    /// Mounts the root scope: renders it, creates its tree, and appends
    /// what was created to the root of the host tree.
    pub open spec fn rebuild(self) -> Outcome<T, P, ()> {
        match self.dom.rendered(ScopeId(0)) {
            None => Outcome { pass: self, result: Err(DiffError::InvariantViolation) },
            Some(tree) => {
                let made = self.with_dom(self.dom.run_scope(ScopeId(0))).create_scope(
                    ScopeId(0),
                    *tree.node(),
                    Some(ElementRef { element: ElementId(0) }),
                );
                let stored = made.pass.with_dom(
                    made.pass.dom.set_rendered(ScopeId(0), Some(tree)),
                );
                match made.result {
                    Ok(m) => Outcome {
                        pass: stored.emit(Mutation::AppendChildren { id: ElementId(0), m }),
                        result: Ok(()),
                    },
                    Err(e) => Outcome { pass: stored, result: Err(e) },
                }
            },
        }
    }

    /// Unmounts `scope`: its state leaves the scope table, its rendered
    /// tree is unmounted, and the runtime drops the scope with its owner
    /// and the cells the owner holds.
    pub open spec fn remove_component_node(self, scope: ScopeId, removal: Removal) -> Outcome<
        T,
        P,
        (),
    >
        decreases self.scope_level(scope), 9int,
    {
        if !self.dom.has_scope(scope) {
            Outcome { pass: self, result: Err(DiffError::InvariantViolation) }
        } else {
            let state = self.dom.scope(scope);
            let taken = self.with_dom(self.dom.remove_state(scope));
            let removed: Step<T, P, ()> = match state.last_rendered_node {
                Some(tree) => taken.remove_node(
                    *tree.node(),
                    state.mount.height,
                    state.mount.nodes,
                    0,
                    removal,
                ),
                None => Step { pass: taken, nodes: state.mount.nodes, result: Ok(()) },
            };
            Outcome {
                pass: removed.pass.with_dom(
                    removed.pass.dom.with_runtime(removed.pass.dom.runtime.remove_scope(scope)),
                ),
                result: removed.result,
            }
        }
    }
}

} // verus!
