//! Mounting, updating and replacing the component scopes nested in a
//! rendered tree.

use crate::diff::model::Pass;
use crate::diff::node::deeper;
use crate::mutations::{Removal, WriteMutations};
use crate::nodes::{
    AnyProps, ElementId, ElementRef, RenderReturn, VComponent, VNode, VNodeMount,
};
use crate::runtime::ScopeId;
use crate::virtual_dom::{DiffError, ScopeState, VirtualDom, MAX_SCOPE_HEIGHT};
use vstd::pervasive::unreached;
use vstd::prelude::*;

verus! {

impl<T, P: AnyProps<T>> VirtualDom<T, P> {
    /// Diffs the tree that `scope` rendered last against `new_nodes`, and
    /// stores `new_nodes` in its place. The scope is on the scope stack
    /// for the time of the diff.
    pub fn diff_scope<M: WriteMutations>(
        &mut self,
        to: &mut M,
        scope: ScopeId,
        new_nodes: RenderReturn<P>,
    ) -> (r: Result<(), DiffError>)
        ensures
            old(self)@.runtime.wf() ==> final(self)@.runtime.wf(),
            final(self)@.runtime.scope_stack == old(self)@.runtime.scope_stack,
            final(self)@.runtime.effect_stack == old(self)@.runtime.effect_stack,
            (Pass { dom: old(self)@, edits: old(to).edits() }).diff_scope(
                scope,
                new_nodes,
            ).matches_run(final(self)@, final(to).edits(), r),
        decreases (Pass { dom: old(self)@, edits: old(to).edits() }).scope_level(scope), 9int,
    {
        let ready = match self.rendered_of(scope) {
            Some(stored) => stored.is_ready(),
            None => {
                return Err(DiffError::InvariantViolation);
            },
        };
        if ready != new_nodes.is_ready() {
            return Err(DiffError::InvariantViolation);
        }
        self.push_scope(scope);
        let stored = match self.take_rendered(scope) {
            Some(stored) => stored,
            None => unreached(),
        };
        let mut mount = match self.take_mount(scope) {
            Some(mount) => mount,
            None => unreached(),
        };
        let parent = mount.parent;
        let r = stored.node().diff_node(new_nodes.node(), &mut mount, 0, parent, self, to);
        let r = match r {
            Ok(_) => {
                self.set_rendered(scope, new_nodes);
                Ok(())
            },
            Err(e) => {
                self.set_rendered(scope, stored);
                Err(e)
            },
        };
        self.set_mount(scope, mount);
        self.pop_scope();
        assert(self@.runtime.scope_stack =~= old(self)@.runtime.scope_stack);
        r
    }

    /// Creates the host structure of `new_node` as the tree of `scope`,
    /// writing to the mutation sink. The scope is on the scope stack for
    /// the time. Returns the number of nodes created on the renderer's
    /// stack.
    pub fn create_scope<M: WriteMutations>(
        &mut self,
        to: &mut M,
        scope: ScopeId,
        new_node: &VNode<P>,
        parent: Option<ElementRef>,
    ) -> (r: Result<usize, DiffError>)
        ensures
            old(self)@.runtime.wf() ==> final(self)@.runtime.wf(),
            final(self)@.runtime.scope_stack == old(self)@.runtime.scope_stack,
            final(self)@.runtime.effect_stack == old(self)@.runtime.effect_stack,
            (Pass { dom: old(self)@, edits: old(to).edits() }).create_scope(
                scope,
                *new_node,
                parent,
            ).matches_run(final(self)@, final(to).edits(), r),
            old(self)@.has_scope(scope) ==> r is Ok || r == Err::<usize, _>(DiffError::TooDeep),
            old(self)@.keeps_all_but(final(self)@, scope),
        decreases (Pass { dom: old(self)@, edits: old(to).edits() }).scope_level(scope), 9int,
    {
        let height = match self.height_of(scope) {
            Some(height) => height,
            None => {
                return Err(DiffError::InvariantViolation);
            },
        };
        proof {
            crate::diff::laws::lemma_create_scope_keeps_others(
                Pass { dom: self@, edits: to.edits() },
                scope,
                *new_node,
                parent,
            );
        }
        self.push_scope(scope);
        let mut mount = VNodeMount::new(parent, height);
        let r = new_node.create(&mut mount, 0, parent, self, to);
        self.set_mount(scope, mount);
        self.pop_scope();
        assert(self@.runtime.scope_stack =~= old(self)@.runtime.scope_stack);
        match r {
            Ok(_) => Ok(1),
            Err(e) => Err(e),
        }
    }

    /// Renders `scope` once, diffs the result against the tree it
    /// rendered last, and stores it. Once diffed, the scope leaves the
    /// dirty set.
    pub fn run_and_diff_scope<M: WriteMutations>(&mut self, to: &mut M, scope: ScopeId) -> (r:
        Result<(), DiffError>)
        ensures
            old(self)@.runtime.wf() ==> final(self)@.runtime.wf(),
            final(self)@.runtime.scope_stack == old(self)@.runtime.scope_stack,
            final(self)@.runtime.effect_stack == old(self)@.runtime.effect_stack,
            (Pass { dom: old(self)@, edits: old(to).edits() }).run_and_diff_scope(
                scope,
            ).matches_run(final(self)@, final(to).edits(), r),
        decreases (Pass { dom: old(self)@, edits: old(to).edits() }).scope_level(scope), 10int,
    {
        let new_nodes = match self.run_scope(scope) {
            Some(new_nodes) => new_nodes,
            None => {
                return Err(DiffError::InvariantViolation);
            },
        };
        match self.diff_scope(to, scope, new_nodes) {
            Ok(_) => {},
            Err(e) => {
                return Err(e);
            },
        }
        self.clear_dirty(scope);
        Ok(())
    }

    /// Mounts the root component: renders the root scope, creates its
    /// tree, and appends what was created to the root of the host tree.
    /// With the root scope in place this is given up only where
    /// components nest too deep.
    pub fn rebuild<M: WriteMutations>(&mut self, to: &mut M) -> (r: Result<(), DiffError>)
        ensures
            old(self)@.runtime.wf() ==> final(self)@.runtime.wf(),
            final(self)@.runtime.scope_stack == old(self)@.runtime.scope_stack,
            final(self)@.runtime.effect_stack == old(self)@.runtime.effect_stack,
            (Pass { dom: old(self)@, edits: old(to).edits() }).rebuild().matches_run(
                final(self)@,
                final(to).edits(),
                r,
            ),
            old(self)@.has_scope(ScopeId(0)) ==> r is Ok || r == Err::<(), _>(DiffError::TooDeep),
    {
        let tree = match self.run_scope(ScopeId(0)) {
            Some(tree) => tree,
            None => {
                return Err(DiffError::InvariantViolation);
            },
        };
        let r = self.create_scope(
            to,
            ScopeId(0),
            tree.node(),
            Some(ElementRef { element: ElementId(0) }),
        );
        self.set_rendered(ScopeId(0), tree);
        match r {
            Ok(m) => {
                to.append_children(ElementId(0), m);
                Ok(())
            },
            Err(e) => Err(e),
        }
    }

    /// Unmounts `scope`: unmounts the tree it rendered, and drops the
    /// scope with its owner and the cells the owner holds.
    pub fn remove_component_node<M: WriteMutations>(
        &mut self,
        to: &mut M,
        scope: ScopeId,
        removal: Removal,
    ) -> (r: Result<(), DiffError>)
        ensures
            old(self)@.runtime.wf() ==> final(self)@.runtime.wf(),
            final(self)@.runtime.scope_stack == old(self)@.runtime.scope_stack,
            final(self)@.runtime.effect_stack == old(self)@.runtime.effect_stack,
            (Pass { dom: old(self)@, edits: old(to).edits() }).remove_component_node(
                scope,
                removal,
            ).matches_run(final(self)@, final(to).edits(), r),
        decreases (Pass { dom: old(self)@, edits: old(to).edits() }).scope_level(scope), 9int,
    {
        let state = match self.remove_state(scope) {
            Some(state) => state,
            None => {
                return Err(DiffError::InvariantViolation);
            },
        };
        let ScopeState { last_rendered_node, mut mount, .. } = state;
        let r = match &last_rendered_node {
            Some(tree) => tree.node().remove_node(&mut mount, 0, removal, self, to),
            None => Ok(()),
        };
        self.drop_scope(scope);
        r
    }
}

impl<P> VNode<P> {
    /// Diffs the component placeholder `new` against `mounted`, which is
    /// mounted on `scope_id` at position `idx` of the mount. Placeholders
    /// of different components are replaced. For the same component the
    /// scope's props decide: if they memoize the new props nothing is
    /// rendered and nothing written; otherwise the scope takes the new
    /// props, renders once, and the result is diffed against its stored
    /// tree.
    pub fn diff_vcomponent<T, M: WriteMutations>(
        &self,
        mount: &mut VNodeMount,
        idx: usize,
        new: &VComponent<P>,
        mounted: &VComponent<P>,
        scope_id: ScopeId,
        parent: Option<ElementRef>,
        dom: &mut VirtualDom<T, P>,
        to: &mut M,
    ) -> (r: Result<(), DiffError>) where P: AnyProps<T>
        ensures
            old(dom)@.runtime.wf() ==> final(dom)@.runtime.wf(),
            final(dom)@.runtime.scope_stack == old(dom)@.runtime.scope_stack,
            final(dom)@.runtime.effect_stack == old(dom)@.runtime.effect_stack,
            (Pass { dom: old(dom)@, edits: old(to).edits() }).diff_vcomponent(
                *new,
                *mounted,
                scope_id,
                old(mount)@.height,
                old(mount)@.nodes,
                idx,
                parent,
            ).matches_run(old(mount)@, final(mount)@, final(dom)@, final(to).edits(), r),
        decreases crate::diff::model::level(old(mount)@.height), 5int,
    {
        // Replace components that have different render fns
        if mounted.render_fn != new.render_fn {
            return self.replace_vcomponent(mount, idx, new, parent, dom, to);
        }
        if !deeper(dom.height_of(scope_id), mount.height) {
            return Err(DiffError::InvariantViolation);
        }
        // The scope keeps its props and its tree: the new props are dropped unused
        match dom.props_memoized(scope_id, &new.props) {
            Some(true) => {
                return Ok(());
            },
            _ => {},
        }
        // Move the new props in, dropping the old ones
        dom.set_props(scope_id, new.props.duplicate());

        // Now run the component and diff it
        dom.run_and_diff_scope(to, scope_id)
    }

    /// Replaces the component mounted at position `idx` of the mount by
    /// `new`: the new instance is mounted in full and recorded at `idx`
    /// in place of the old one, then the old scope is unmounted, its root
    /// replaced in the host tree by what the new instance created.
    pub fn replace_vcomponent<T, M: WriteMutations>(
        &self,
        mount: &mut VNodeMount,
        idx: usize,
        new: &VComponent<P>,
        parent: Option<ElementRef>,
        dom: &mut VirtualDom<T, P>,
        to: &mut M,
    ) -> (r: Result<(), DiffError>) where P: AnyProps<T>
        ensures
            old(dom)@.runtime.wf() ==> final(dom)@.runtime.wf(),
            final(dom)@.runtime.scope_stack == old(dom)@.runtime.scope_stack,
            final(dom)@.runtime.effect_stack == old(dom)@.runtime.effect_stack,
            (Pass { dom: old(dom)@, edits: old(to).edits() }).replace_vcomponent(
                *new,
                old(mount)@.height,
                old(mount)@.nodes,
                idx,
                parent,
            ).matches_run(old(mount)@, final(mount)@, final(dom)@, final(to).edits(), r),
            idx < old(mount)@.nodes.len() ==> final(mount)@.nodes == old(mount)@.nodes.update(
                idx as int,
                old(dom)@.next_scope().0,
            ),
            idx >= old(mount)@.nodes.len() ==> final(mount)@.nodes == old(mount)@.nodes && r
                == Err::<(), _>(DiffError::InvariantViolation),
        decreases crate::diff::model::level(old(mount)@.height), 4int,
    {
        proof {
            dom.lemma_scopes_fit();
        }
        let scope = match mount.get(idx) {
            Some(scope) => ScopeId(scope),
            None => {
                return Err(DiffError::InvariantViolation);
            },
        };
        let m = match self.create_component_node(mount, idx, new, parent, dom, to) {
            Ok(m) => m,
            Err(e) => {
                return Err(e);
            },
        };
        if !deeper(dom.height_of(scope), mount.height) {
            return Err(DiffError::InvariantViolation);
        }
        dom.remove_component_node(to, scope, Removal::ReplaceWith(m))
    }

    /// Mounts `component` one level below the tree of this mount: a new
    /// scope takes a copy of the props and is recorded at position `idx`
    /// of the mount, in place of the entry there or as a new last entry;
    /// no other entry moves, and no scope that was there is touched. Then
    /// the scope renders and its tree is created. Returns the number of
    /// nodes created on the renderer's stack. Where the mount is at the
    /// deepest level already, the scope is registered and recorded, but
    /// not rendered.
    pub fn create_component_node<T, M: WriteMutations>(
        &self,
        mount: &mut VNodeMount,
        idx: usize,
        component: &VComponent<P>,
        parent: Option<ElementRef>,
        dom: &mut VirtualDom<T, P>,
        to: &mut M,
    ) -> (r: Result<usize, DiffError>) where P: AnyProps<T>
        ensures
            old(dom)@.runtime.wf() ==> final(dom)@.runtime.wf(),
            final(dom)@.runtime.scope_stack == old(dom)@.runtime.scope_stack,
            final(dom)@.runtime.effect_stack == old(dom)@.runtime.effect_stack,
            (Pass { dom: old(dom)@, edits: old(to).edits() }).create_component_node(
                *component,
                old(mount)@.height,
                old(mount)@.nodes,
                idx,
                parent,
            ).matches_run(old(mount)@, final(mount)@, final(dom)@, final(to).edits(), r),
            idx <= old(mount)@.nodes.len() ==> {
                &&& final(mount)@.nodes == crate::nodes::recorded(
                    old(mount)@.nodes,
                    idx,
                    old(dom)@.next_scope().0,
                )
                &&& !old(dom)@.has_scope(old(dom)@.next_scope())
                &&& final(dom)@.has_scope(old(dom)@.next_scope())
                &&& final(dom)@.height_of(old(dom)@.next_scope()) == Some(
                    crate::diff::model::below(old(mount)@.height),
                )
                &&& r is Ok ==> crate::diff::model::deeper(
                    final(dom)@.height_of(old(dom)@.next_scope()),
                    old(mount)@.height,
                )
                &&& r is Ok || r == Err::<usize, _>(DiffError::TooDeep)
                &&& old(mount)@.height >= MAX_SCOPE_HEIGHT ==> r is Err
            },
            idx > old(mount)@.nodes.len() ==> r == Err::<usize, _>(DiffError::InvariantViolation),
            old(dom)@.keeps_all(final(dom)@),
        decreases crate::diff::model::level(old(mount)@.height), 1int,
    {
        if idx > mount.mounted_dynamic_nodes.len() {
            return Err(DiffError::InvariantViolation);
        }
        proof {
            dom.lemma_scopes_fit();
            crate::diff::laws::lemma_create_component_node_keeps_all(
                Pass { dom: dom@, edits: to.edits() },
                *component,
                mount@.height,
                mount@.nodes,
                idx,
                parent,
            );
        }
        let height = if mount.height < MAX_SCOPE_HEIGHT {
            mount.height + 1
        } else {
            MAX_SCOPE_HEIGHT
        };
        // Load up a ScopeId for this vcomponent
        let scope = dom.new_scope(component.props.duplicate(), component.name, height);
        mount.record(idx, scope.0);
        if mount.height >= MAX_SCOPE_HEIGHT {
            return Err(DiffError::TooDeep);
        }
        let new = match dom.run_scope(scope) {
            Some(new) => new,
            None => unreached(),
        };

        let r = dom.create_scope(to, scope, new.node(), parent);
        dom.set_rendered(scope, new);
        r
    }
}

} // verus!
