//! The virtual runtime: the scope table, the host node ids in use, and the
//! reactive runtime, with the primitive steps that the differ is made of.

use crate::nodes::{AnyProps, ElementId, MountView, RenderReturn, VNodeMount};
use crate::runtime::{DirtyScope, Runtime, RuntimeView, ScopeId};
use vstd::prelude::*;

verus! {

/// Greatest depth of a scope. The depth of a scope is counted in a
/// machine word, each scope lying one deeper than the scope whose tree
/// holds it: a component under a scope at the greatest depth has no depth
/// to take, and is not rendered. The count is also what ends the differ:
/// a render may hold components whose renders hold components, and each
/// step down uses up one of the depths that are left.
pub const MAX_SCOPE_HEIGHT: usize = usize::MAX;

/// Why a diff pass was given up.
#[derive(Clone, Copy, Debug, PartialEq, Eq, Structural)]
pub enum DiffError {
    /// The mounted state does not fit the trees: a scope or a mount entry
    /// is missing, or the old and the new render differ in readiness.
    InvariantViolation,
    /// A component would be mounted deeper than `MAX_SCOPE_HEIGHT`: its
    /// depth does not fit the machine word.
    TooDeep,
}

/// Per-scope state of the virtual runtime.
pub struct ScopeState<P> {
    /// The name of the component, for people to read.
    pub name: &'static str,
    pub props: P,
    pub last_rendered_node: Option<RenderReturn<P>>,
    pub mount: VNodeMount,
}

/// Model of a scope's state.
pub struct ScopeView<P> {
    pub name: &'static str,
    pub props: P,
    pub last_rendered_node: Option<RenderReturn<P>>,
    pub mount: MountView,
}

impl<P> View for ScopeState<P> {
    type V = ScopeView<P>;

    open spec fn view(&self) -> ScopeView<P> {
        ScopeView {
            name: self.name,
            props: self.props,
            last_rendered_node: self.last_rendered_node,
            mount: self.mount@,
        }
    }
}

pub open spec fn scope_view<P>(s: Option<ScopeState<P>>) -> Option<ScopeView<P>> {
    match s {
        Some(s) => Some(s@),
        None => None,
    }
}

/// Model of the host node ids: which are in use, and which to hand out
/// again.
pub struct ElementsView {
    pub used: Seq<bool>,
    pub free: Seq<usize>,
}

impl ElementsView {
    pub open spec fn reusable(self) -> bool {
        &&& self.free.len() > 0
        &&& self.free.last() < self.used.len()
        &&& !self.used[self.free.last() as int]
    }

    /// The id that the next `claim` hands out.
    pub open spec fn next(self) -> ElementId {
        if self.reusable() {
            ElementId(self.free.last())
        } else {
            ElementId(self.used.len() as usize)
        }
    }

    pub open spec fn claim(self) -> Self {
        if self.reusable() {
            ElementsView {
                used: self.used.update(self.free.last() as int, true),
                free: self.free.drop_last(),
            }
        } else {
            ElementsView {
                used: self.used.push(true),
                free: if self.free.len() > 0 {
                    self.free.drop_last()
                } else {
                    self.free
                },
            }
        }
    }

    pub open spec fn in_use(self, id: ElementId) -> bool {
        id.0 < self.used.len() && self.used[id.0 as int]
    }

    pub open spec fn reclaim(self, id: ElementId) -> Self {
        if self.in_use(id) {
            ElementsView { used: self.used.update(id.0 as int, false), free: self.free.push(id.0) }
        } else {
            self
        }
    }
}

/// The host node ids in use.
pub struct ElementArena {
    used: Vec<bool>,
    free: Vec<usize>,
}

impl View for ElementArena {
    type V = ElementsView;

    closed spec fn view(&self) -> ElementsView {
        ElementsView { used: self.used@, free: self.free@ }
    }
}

impl ElementArena {
    pub fn new() -> (arena: Self)
        ensures
            arena@ == (ElementsView { used: Seq::empty(), free: Seq::empty() }),
    {
        ElementArena { used: Vec::new(), free: Vec::new() }
    }

    /// Hands out an id that is not in use.
    pub fn claim(&mut self) -> (id: ElementId)
        ensures
            id == old(self)@.next(),
            !old(self)@.in_use(id),
            final(self)@ == old(self)@.claim(),
    {
        let n = self.used.len();
        match self.free.pop() {
            Some(i) => {
                if i < n && !self.used[i] {
                    self.used[i] = true;
                    assert(self@.used =~= old(self)@.claim().used);
                    return ElementId(i);
                }
            },
            None => {},
        }
        self.used.push(true);
        ElementId(n)
    }

    /// Takes an id back.
    pub fn reclaim(&mut self, id: ElementId)
        ensures
            final(self)@ == old(self)@.reclaim(id),
    {
        if id.0 < self.used.len() && self.used[id.0] {
            self.used[id.0] = false;
            self.free.push(id.0);
            assert(self@.used =~= old(self)@.reclaim(id).used);
        }
    }
}

/// Mathematical model of the virtual runtime.
pub struct DomView<T, P> {
    pub runtime: RuntimeView<T>,
    pub scopes: Seq<Option<ScopeView<P>>>,
    pub free_scopes: Seq<usize>,
    pub elements: ElementsView,
}

impl<T, P> DomView<T, P> {
    pub open spec fn has_scope(self, scope: ScopeId) -> bool {
        scope.0 < self.scopes.len() && self.scopes[scope.0 as int] is Some
    }

    pub open spec fn scope(self, scope: ScopeId) -> ScopeView<P> {
        self.scopes[scope.0 as int]->0
    }

    /// Nesting depth of the scope, if it exists.
    pub open spec fn height_of(self, scope: ScopeId) -> Option<usize> {
        if self.has_scope(scope) {
            Some(self.scope(scope).mount.height)
        } else {
            None
        }
    }

    pub open spec fn with_runtime(self, runtime: RuntimeView<T>) -> Self {
        DomView { runtime, ..self }
    }

    pub open spec fn with_scope(self, scope: ScopeId, state: Option<ScopeView<P>>) -> Self {
        DomView { scopes: self.scopes.update(scope.0 as int, state), ..self }
    }

    /// The top of the free list can take a new scope.
    pub open spec fn scope_reusable(self) -> bool {
        &&& self.free_scopes.len() > 0
        &&& self.free_scopes.last() < self.scopes.len()
        &&& self.scopes[self.free_scopes.last() as int] is None
    }

    /// The id that the next `new_scope` returns: one that no scope has.
    pub open spec fn next_scope(self) -> ScopeId {
        if self.scope_reusable() {
            ScopeId(self.free_scopes.last())
        } else {
            ScopeId(self.scopes.len() as usize)
        }
    }

    /// The dom after a scope with these props was added at this depth. It
    /// has no rendered tree yet.
    pub open spec fn new_scope(self, props: P, name: &'static str, height: usize) -> Self {
        let state = Some(
            ScopeView {
                name,
                props,
                last_rendered_node: None,
                mount: MountView { parent: None, height, nodes: Seq::empty() },
            },
        );
        DomView {
            runtime: self.runtime.create_scope_at(self.next_scope(), height),
            scopes: if self.scope_reusable() {
                self.scopes.update(self.free_scopes.last() as int, state)
            } else {
                self.scopes.push(state)
            },
            free_scopes: if self.free_scopes.len() > 0 {
                self.free_scopes.drop_last()
            } else {
                self.free_scopes
            },
            ..self
        }
    }

    /// The rendered tree of the scope, if the scope exists and has one.
    pub open spec fn rendered_of(self, scope: ScopeId) -> Option<RenderReturn<P>> {
        if self.has_scope(scope) {
            self.scope(scope).last_rendered_node
        } else {
            None
        }
    }

    pub open spec fn set_rendered(self, scope: ScopeId, tree: Option<RenderReturn<P>>) -> Self {
        if self.has_scope(scope) {
            self.with_scope(scope, Some(ScopeView { last_rendered_node: tree, ..self.scope(scope) }))
        } else {
            self
        }
    }

    /// The mount of the scope, if the scope exists.
    pub open spec fn mount_of(self, scope: ScopeId) -> Option<MountView> {
        if self.has_scope(scope) {
            Some(self.scope(scope).mount)
        } else {
            None
        }
    }

    pub open spec fn set_mount(self, scope: ScopeId, mount: MountView) -> Self {
        if self.has_scope(scope) {
            self.with_scope(scope, Some(ScopeView { mount, ..self.scope(scope) }))
        } else {
            self
        }
    }

    /// The dom after the scope's mount was taken out: the scope keeps an
    /// empty mount at the same depth.
    pub open spec fn take_mount(self, scope: ScopeId) -> Self {
        if self.has_scope(scope) {
            self.set_mount(
                scope,
                MountView { nodes: Seq::empty(), ..self.scope(scope).mount },
            )
        } else {
            self
        }
    }

    pub open spec fn set_props(self, scope: ScopeId, props: P) -> Self {
        if self.has_scope(scope) {
            self.with_scope(scope, Some(ScopeView { props, ..self.scope(scope) }))
        } else {
            self
        }
    }

    /// The dom after the scope's state was taken out of the table. Its id
    /// is free for another scope.
    pub open spec fn remove_state(self, scope: ScopeId) -> Self {
        if self.has_scope(scope) {
            DomView { free_scopes: self.free_scopes.push(scope.0), ..self.with_scope(scope, None) }
        } else {
            self
        }
    }

    /// The dom after the scope left the dirty set, under the depth the
    /// runtime has for it.
    pub open spec fn clear_dirty(self, scope: ScopeId) -> Self {
        match self.runtime.height_of(scope) {
            Some(height) => self.with_runtime(
                self.runtime.unmark_dirty(DirtyScope { height, id: scope }),
            ),
            None => self,
        }
    }

    /// A dom with the root of the host tree, which is host node 0, and
    /// one scope: the root scope, which is scope 0, is named `app`, holds
    /// `root_props` and has not rendered yet.
    pub open spec fn initial(root_props: P) -> Self {
        DomView {
            runtime: RuntimeView::empty(),
            scopes: Seq::empty(),
            free_scopes: Seq::empty(),
            elements: ElementsView { used: Seq::empty(), free: Seq::empty() },
        }.claim_element().new_scope(root_props, "app", 0)
    }

    pub open spec fn claim_element(self) -> Self {
        DomView { elements: self.elements.claim(), ..self }
    }

    pub open spec fn reclaim_element(self, id: ElementId) -> Self {
        DomView { elements: self.elements.reclaim(id), ..self }
    }
}

impl<T, P: AnyProps<T>> DomView<T, P> {
    /// Whether the scope's props let `new` pass without a render.
    pub open spec fn memoized(self, scope: ScopeId, new: P) -> Option<bool> {
        if self.has_scope(scope) {
            Some(self.scope(scope).props.memoize_spec(&new))
        } else {
            None
        }
    }

    /// What rendering the scope gives: the render function runs on the
    /// scope's props with the scope on top of the scope stack.
    pub open spec fn rendered(self, scope: ScopeId) -> Option<RenderReturn<P>> {
        if self.has_scope(scope) {
            Some(self.scope(scope).props.rendered(self.runtime.push_scope(scope)))
        } else {
            None
        }
    }

    /// The dom after the scope was rendered.
    pub open spec fn run_scope(self, scope: ScopeId) -> Self {
        if self.has_scope(scope) {
            self.with_runtime(
                self.scope(scope).props.rendered_runtime(
                    self.runtime.push_scope(scope),
                ).pop_scope(),
            )
        } else {
            self
        }
    }
}

/// The virtual runtime.
pub struct VirtualDom<T, P> {
    runtime: Runtime<T>,
    scopes: Vec<Option<ScopeState<P>>>,
    free_scopes: Vec<usize>,
    elements: ElementArena,
}

impl<T, P> View for VirtualDom<T, P> {
    type V = DomView<T, P>;

    closed spec fn view(&self) -> DomView<T, P> {
        DomView {
            runtime: self.runtime@,
            scopes: Seq::new(self.scopes@.len(), |i: int| scope_view(self.scopes@[i])),
            free_scopes: self.free_scopes@,
            elements: self.elements@,
        }
    }
}

impl<T, P> VirtualDom<T, P> {
    /// A virtual runtime for the component that `root_props` belong to.
    /// The root scope exists and waits for `rebuild`.
    pub fn new(root_props: P) -> (dom: Self)
        ensures
            dom@ == DomView::<T, P>::initial(root_props),
            dom@.runtime.wf(),
            dom@.has_scope(ScopeId(0)),
    {
        let mut dom = VirtualDom {
            runtime: Runtime::new(),
            scopes: Vec::new(),
            free_scopes: Vec::new(),
            elements: ElementArena::new(),
        };
        assert(dom@.scopes =~= Seq::empty());
        dom.next_element();
        dom.new_scope(root_props, "app", 0);
        dom
    }

    /// The reactive runtime, to read cells and the dirty set.
    pub fn runtime(&self) -> (rt: &Runtime<T>)
        ensures
            rt@ == self@.runtime,
    {
        &self.runtime
    }

    /// The reactive runtime, to create and write cells.
    pub fn runtime_mut(&mut self) -> (rt: &mut Runtime<T>)
        ensures
            rt@ == old(self)@.runtime,
            final(self)@ == old(self)@.with_runtime(final(rt)@),
    {
        &mut self.runtime
    }

    /// Scope ids fit the machine word.
    pub proof fn lemma_scopes_fit(&self)
        ensures
            self@.scopes.len() <= usize::MAX,
    {
        assert(self.scopes@.len() == self.scopes.len());
    }

    pub fn has_scope(&self, scope: ScopeId) -> (b: bool)
        ensures
            b == self@.has_scope(scope),
    {
        scope.0 < self.scopes.len() && self.scopes[scope.0].is_some()
    }

    /// Nesting depth of the scope, if it exists.
    pub fn height_of(&self, scope: ScopeId) -> (h: Option<usize>)
        ensures
            h == self@.height_of(scope),
    {
        if scope.0 < self.scopes.len() {
            match &self.scopes[scope.0] {
                Some(state) => Some(state.mount.height),
                None => None,
            }
        } else {
            None
        }
    }

    /// The name of the component that the scope runs.
    pub fn name_of(&self, scope: ScopeId) -> (name: Option<&'static str>)
        ensures
            name == (if self@.has_scope(scope) {
                Some(self@.scope(scope).name)
            } else {
                None
            }),
    {
        if scope.0 < self.scopes.len() {
            match &self.scopes[scope.0] {
                Some(state) => Some(state.name),
                None => None,
            }
        } else {
            None
        }
    }

    /// The tree that the scope rendered last.
    pub fn rendered_of(&self, scope: ScopeId) -> (tree: Option<&RenderReturn<P>>)
        ensures
            match tree {
                Some(tree) => self@.rendered_of(scope) == Some(*tree),
                None => self@.rendered_of(scope) is None,
            },
    {
        if scope.0 < self.scopes.len() {
            match &self.scopes[scope.0] {
                Some(state) => state.last_rendered_node.as_ref(),
                None => None,
            }
        } else {
            None
        }
    }

    /// Adds a scope with these props at this depth, under an id that no
    /// scope has.
    pub fn new_scope(&mut self, props: P, name: &'static str, height: usize) -> (id: ScopeId)
        ensures
            id == old(self)@.next_scope(),
            !old(self)@.has_scope(id),
            final(self)@ == old(self)@.new_scope(props, name, height),
            old(self)@.runtime.wf() ==> final(self)@.runtime.wf(),
            final(self)@.has_scope(id),
            final(self)@.height_of(id) == Some(height),
    {
        let state = ScopeState {
            name,
            props,
            last_rendered_node: None,
            mount: VNodeMount::new(None, height),
        };
        let n = self.scopes.len();
        let id = match self.free_scopes.pop() {
            Some(i) => {
                if i < n && self.scopes[i].is_none() {
                    i
                } else {
                    n
                }
            },
            None => n,
        };
        if id < n {
            self.scopes[id] = Some(state);
        } else {
            self.scopes.push(Some(state));
        }
        self.runtime.create_scope_at(ScopeId(id), height);
        assert(self@.scopes =~= old(self)@.new_scope(props, name, height).scopes);
        ScopeId(id)
    }

    /// Takes the scope's rendered tree out, if the scope has one.
    pub fn take_rendered(&mut self, scope: ScopeId) -> (tree: Option<RenderReturn<P>>)
        ensures
            tree == old(self)@.rendered_of(scope),
            final(self)@ == old(self)@.set_rendered(scope, None),
    {
        if scope.0 < self.scopes.len() {
            let tree = match &mut self.scopes[scope.0] {
                Some(state) => state.last_rendered_node.take(),
                None => None,
            };
            assert(self@.scopes =~= old(self)@.set_rendered(scope, None).scopes);
            tree
        } else {
            None
        }
    }

    /// Stores the scope's rendered tree.
    pub fn set_rendered(&mut self, scope: ScopeId, tree: RenderReturn<P>)
        ensures
            final(self)@ == old(self)@.set_rendered(scope, Some(tree)),
    {
        if scope.0 < self.scopes.len() {
            match &mut self.scopes[scope.0] {
                Some(state) => {
                    state.last_rendered_node = Some(tree);
                },
                None => {},
            }
            assert(self@.scopes =~= old(self)@.set_rendered(scope, Some(tree)).scopes);
        }
    }

    /// Takes the scope's mount out, leaving an empty one.
    pub fn take_mount(&mut self, scope: ScopeId) -> (mount: Option<VNodeMount>)
        ensures
            match mount {
                Some(mount) => old(self)@.mount_of(scope) == Some(mount@),
                None => old(self)@.mount_of(scope) is None,
            },
            final(self)@ == old(self)@.take_mount(scope),
    {
        if scope.0 < self.scopes.len() {
            let mount = match &mut self.scopes[scope.0] {
                Some(state) => {
                    let mut taken = VNodeMount::new(state.mount.parent, state.mount.height);
                    core::mem::swap(&mut taken, &mut state.mount);
                    Some(taken)
                },
                None => None,
            };
            assert(self@.scopes =~= old(self)@.take_mount(scope).scopes);
            mount
        } else {
            None
        }
    }

    /// Stores the scope's mount.
    pub fn set_mount(&mut self, scope: ScopeId, mount: VNodeMount)
        ensures
            final(self)@ == old(self)@.set_mount(scope, mount@),
    {
        if scope.0 < self.scopes.len() {
            match &mut self.scopes[scope.0] {
                Some(state) => {
                    state.mount = mount;
                },
                None => {},
            }
            assert(self@.scopes =~= old(self)@.set_mount(scope, mount@).scopes);
        }
    }

    /// Replaces the scope's props.
    pub fn set_props(&mut self, scope: ScopeId, props: P)
        ensures
            final(self)@ == old(self)@.set_props(scope, props),
    {
        if scope.0 < self.scopes.len() {
            match &mut self.scopes[scope.0] {
                Some(state) => {
                    state.props = props;
                },
                None => {},
            }
            assert(self@.scopes =~= old(self)@.set_props(scope, props).scopes);
        }
    }

    /// Takes the scope's state out of the table.
    pub fn remove_state(&mut self, scope: ScopeId) -> (state: Option<ScopeState<P>>)
        ensures
            match state {
                Some(state) => old(self)@.has_scope(scope) && state@ == old(self)@.scope(scope),
                None => !old(self)@.has_scope(scope),
            },
            final(self)@ == old(self)@.remove_state(scope),
    {
        if scope.0 < self.scopes.len() {
            let state = self.scopes[scope.0].take();
            if state.is_some() {
                self.free_scopes.push(scope.0);
            }
            assert(self@.scopes =~= old(self)@.remove_state(scope).scopes);
            state
        } else {
            None
        }
    }

    /// Hands out a host node id that is not in use.
    pub fn next_element(&mut self) -> (id: ElementId)
        ensures
            id == old(self)@.elements.next(),
            final(self)@ == old(self)@.claim_element(),
    {
        self.elements.claim()
    }

    /// Takes a host node id back.
    pub fn reclaim(&mut self, id: ElementId)
        ensures
            final(self)@ == old(self)@.reclaim_element(id),
    {
        self.elements.reclaim(id)
    }

    pub fn push_scope(&mut self, scope: ScopeId)
        ensures
            final(self)@ == old(self)@.with_runtime(old(self)@.runtime.push_scope(scope)),
            old(self)@.runtime.wf() ==> final(self)@.runtime.wf(),
    {
        self.runtime.push_scope(scope);
    }

    pub fn pop_scope(&mut self)
        ensures
            final(self)@ == old(self)@.with_runtime(old(self)@.runtime.pop_scope()),
            old(self)@.runtime.wf() ==> final(self)@.runtime.wf(),
    {
        self.runtime.pop_scope();
    }

    /// Removes the scope from the runtime: its owner is dropped with the
    /// cells it holds.
    pub fn drop_scope(&mut self, scope: ScopeId)
        ensures
            final(self)@ == old(self)@.with_runtime(old(self)@.runtime.remove_scope(scope)),
            old(self)@.runtime.wf() ==> final(self)@.runtime.wf(),
    {
        self.runtime.remove_scope(scope);
    }

    /// Takes the scope out of the dirty set, under the depth the runtime
    /// has for it.
    pub fn clear_dirty(&mut self, scope: ScopeId)
        ensures
            final(self)@ == old(self)@.clear_dirty(scope),
            old(self)@.runtime.wf() ==> final(self)@.runtime.wf(),
    {
        match self.runtime.height_of(scope) {
            Some(height) => {
                self.runtime.unmark_dirty(DirtyScope { height, id: scope });
            },
            None => {},
        }
    }
}

impl<T, P: AnyProps<T>> VirtualDom<T, P> {
    /// Asks the scope's memoization policy whether `new` may pass without
    /// a render.
    pub fn props_memoized(&self, scope: ScopeId, new: &P) -> (same: Option<bool>)
        ensures
            same == self@.memoized(scope, *new),
    {
        if scope.0 < self.scopes.len() {
            match &self.scopes[scope.0] {
                Some(state) => Some(state.props.memoized(new)),
                None => None,
            }
        } else {
            None
        }
    }

    /// Renders the scope: pushes it on the scope stack, runs the render
    /// function on its props, and pops it again.
    pub fn run_scope(&mut self, scope: ScopeId) -> (tree: Option<RenderReturn<P>>)
        ensures
            tree == old(self)@.rendered(scope),
            final(self)@ == old(self)@.run_scope(scope),
            old(self)@.runtime.wf() ==> final(self)@.runtime.wf(),
            final(self)@.runtime.scope_stack == old(self)@.runtime.scope_stack,
            final(self)@.runtime.effect_stack == old(self)@.runtime.effect_stack,
    {
        if scope.0 < self.scopes.len() {
            match &self.scopes[scope.0] {
                Some(state) => {
                    self.runtime.push_scope(scope);
                    let tree = state.props.render(&mut self.runtime);
                    self.runtime.pop_scope();
                    assert(self.runtime@.scope_stack =~= old(self).runtime@.scope_stack);
                    Some(tree)
                },
                None => None,
            }
        } else {
            None
        }
    }
}

} // verus!
