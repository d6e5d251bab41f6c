//! Rendered trees: host nodes, component placeholders, what a render
//! returns, and the bookkeeping of a mounted tree.

use crate::runtime::{Runtime, RuntimeView};
use vstd::prelude::*;

verus! {

/// Reference to a node of the host tree.
#[derive(Clone, Copy, Debug, PartialEq, Eq, Hash, Structural)]
pub struct ElementId(pub usize);

/// The host element under which a mounted tree hangs.
#[derive(Clone, Copy, Debug, PartialEq, Eq, Structural)]
pub struct ElementRef {
    pub element: ElementId,
}

/// A named attribute of a host element.
#[derive(Debug, PartialEq, Eq)]
pub struct Attribute {
    pub name: String,
    pub value: String,
}

/// A placeholder for a nested component: the name of the component, the
/// identity token of the component definition, and the props for this
/// instance. The name is for people to read; the token alone says which
/// component it is.
#[derive(Debug)]
pub struct VComponent<P> {
    pub name: &'static str,
    pub render_fn: usize,
    pub props: P,
}

/// A rendered tree.
#[derive(Debug)]
pub enum VNode<P> {
    /// A host element. It is expected to name each of its attributes
    /// once; then a diff sets exactly the attributes whose value changed.
    /// Where a name stands twice the host keeps the value set last, and a
    /// diff also sets again what a changed attribute of the same name
    /// before it would else hide.
    Element { tag: String, attrs: Vec<Attribute>, children: Vec<VNode<P>> },
    Text { text: String },
    Component(VComponent<P>),
}

/// What a render function hands back: a tree, or the tree that stands in
/// for a render that was given up.
#[derive(Debug)]
pub enum RenderReturn<P> {
    Ready(VNode<P>),
    Aborted(VNode<P>),
}

impl<P> RenderReturn<P> {
    pub open spec fn spec_node(&self) -> &VNode<P> {
        match self {
            RenderReturn::Ready(node) => node,
            RenderReturn::Aborted(node) => node,
        }
    }

    pub open spec fn spec_is_ready(&self) -> bool {
        *self is Ready
    }

    /// The tree to mount, whichever the variant.
    #[verifier::when_used_as_spec(spec_node)]
    pub fn node(&self) -> (node: &VNode<P>)
        ensures
            node == self.node(),
    {
        match self {
            RenderReturn::Ready(node) => node,
            RenderReturn::Aborted(node) => node,
        }
    }

    #[verifier::when_used_as_spec(spec_is_ready)]
    pub fn is_ready(&self) -> (ready: bool)
        ensures
            ready == self.is_ready(),
    {
        match self {
            RenderReturn::Ready(_) => true,
            RenderReturn::Aborted(_) => false,
        }
    }
}

/// The props of a component instance, with the component's render function
/// and its memoization policy.
pub trait AnyProps<T>: Sized {
    /// Whether `new` is equal enough to these props to keep the rendered
    /// tree without rendering again.
    spec fn memoize_spec(&self, new: &Self) -> bool;

    fn memoized(&self, new: &Self) -> (same: bool)
        ensures
            same == self.memoize_spec(new),
    ;

    /// The tree that rendering these props gives in the runtime `rt`.
    spec fn rendered(&self, rt: RuntimeView<T>) -> RenderReturn<Self>;

    /// The runtime that rendering these props leaves.
    spec fn rendered_runtime(&self, rt: RuntimeView<T>) -> RuntimeView<T>;

    /// Runs the component on these props. It may read, write and create
    /// cells; the scope being rendered is the runtime's current scope. It
    /// leaves the scope stack and the effect stack as it found them, and
    /// the ownership of cells in order.
    fn render(&self, rt: &mut Runtime<T>) -> (tree: RenderReturn<Self>)
        ensures
            tree == self.rendered(old(rt)@),
            final(rt)@ == self.rendered_runtime(old(rt)@),
            final(rt)@.scope_stack == old(rt)@.scope_stack,
            final(rt)@.effect_stack == old(rt)@.effect_stack,
            old(rt)@.wf() ==> final(rt)@.wf(),
    ;

    fn duplicate(&self) -> (copy: Self)
        ensures
            copy == *self,
    ;
}

/// Props of the component that shows a fixed text. It renders one text
/// node, touches no cell, and memoizes props that hold the same text.
#[derive(Debug)]
pub struct TextProps {
    pub text: String,
}

impl<T> AnyProps<T> for TextProps {
    open spec fn memoize_spec(&self, new: &Self) -> bool {
        self.text@ == new.text@
    }

    fn memoized(&self, new: &Self) -> (same: bool) {
        self.text == new.text
    }

    open spec fn rendered(&self, rt: RuntimeView<T>) -> RenderReturn<Self> {
        RenderReturn::Ready(VNode::Text { text: self.text })
    }

    open spec fn rendered_runtime(&self, rt: RuntimeView<T>) -> RuntimeView<T> {
        rt
    }

    fn render(&self, rt: &mut Runtime<T>) -> (tree: RenderReturn<Self>) {
        RenderReturn::Ready(VNode::Text { text: self.text.clone() })
    }

    fn duplicate(&self) -> (copy: Self) {
        TextProps { text: self.text.clone() }
    }
}

/// Model of a mount.
pub struct MountView {
    pub parent: Option<ElementRef>,
    pub height: usize,
    pub nodes: Seq<usize>,
}

/// Bookkeeping of one mounted tree: for each node, by its position in a
/// preorder walk, what it was mounted as: the host node made for an
/// element or a text, the scope spawned for a component placeholder.
#[derive(Debug)]
pub struct VNodeMount {
    /// The host element this tree hangs under.
    pub parent: Option<ElementRef>,
    /// Nesting depth of the scope that rendered this tree.
    pub height: usize,
    pub mounted_dynamic_nodes: Vec<usize>,
}

impl View for VNodeMount {
    type V = MountView;

    open spec fn view(&self) -> MountView {
        MountView {
            parent: self.parent,
            height: self.height,
            nodes: self.mounted_dynamic_nodes@,
        }
    }
}

impl MountView {
    pub open spec fn get(self, idx: usize) -> Option<usize> {
        if idx < self.nodes.len() {
            Some(self.nodes[idx as int])
        } else {
            None
        }
    }

    pub open spec fn insert(self, idx: usize, value: usize) -> Self {
        if idx <= self.nodes.len() {
            MountView { nodes: self.nodes.insert(idx as int, value), ..self }
        } else {
            self
        }
    }

    pub open spec fn remove(self, idx: usize) -> Self {
        if idx < self.nodes.len() {
            MountView { nodes: self.nodes.remove(idx as int), ..self }
        } else {
            self
        }
    }

    /// The mount with `value` recorded at position `idx`: in place of the
    /// entry there, or as a new last entry. No other entry moves.
    pub open spec fn record(self, idx: usize, value: usize) -> Self {
        MountView { nodes: recorded(self.nodes, idx, value), ..self }
    }

    /// The mount with room made at position `idx`: an entry that names
    /// nothing yet stands there, and the entries from `idx` on have moved
    /// up by one.
    pub open spec fn make_room(self, idx: usize) -> Self {
        self.insert(idx, usize::MAX)
    }
}

/// The entries with `value` recorded at position `idx`: in place of the
/// entry there, or as a new last entry. No other entry moves. A position
/// beyond the end takes nothing.
pub open spec fn recorded(nodes: Seq<usize>, idx: usize, value: usize) -> Seq<usize> {
    if idx < nodes.len() {
        nodes.update(idx as int, value)
    } else if idx == nodes.len() {
        nodes.push(value)
    } else {
        nodes
    }
}

impl VNodeMount {
    pub fn new(parent: Option<ElementRef>, height: usize) -> (mount: Self)
        ensures
            mount@ == (MountView { parent, height, nodes: Seq::empty() }),
    {
        VNodeMount { parent, height, mounted_dynamic_nodes: Vec::new() }
    }

    /// What the node at position `idx` was mounted as.
    pub fn get(&self, idx: usize) -> (r: Option<usize>)
        ensures
            r == self@.get(idx),
            r is Some ==> idx < usize::MAX,
    {
        if idx < self.mounted_dynamic_nodes.len() {
            Some(self.mounted_dynamic_nodes[idx])
        } else {
            None
        }
    }

    /// Makes room at position `idx` and records `value` there. Positions
    /// beyond the end are refused.
    pub fn insert(&mut self, idx: usize, value: usize) -> (done: bool)
        ensures
            done == (idx <= old(self)@.nodes.len()),
            done ==> idx < usize::MAX,
            final(self)@ == old(self)@.insert(idx, value),
    {
        if idx <= self.mounted_dynamic_nodes.len() {
            self.mounted_dynamic_nodes.insert(idx, value);
            assert(self.mounted_dynamic_nodes@.len() == self.mounted_dynamic_nodes.len());
            true
        } else {
            false
        }
    }

    /// Records `value` at position `idx`: in place of the entry there, or
    /// as a new last entry. No other entry moves. Positions beyond the end
    /// are refused.
    pub fn record(&mut self, idx: usize, value: usize) -> (done: bool)
        ensures
            done == (idx <= old(self)@.nodes.len()),
            done ==> idx < final(self)@.nodes.len(),
            final(self)@ == old(self)@.record(idx, value),
    {
        if idx < self.mounted_dynamic_nodes.len() {
            self.mounted_dynamic_nodes[idx] = value;
            true
        } else if idx == self.mounted_dynamic_nodes.len() {
            self.mounted_dynamic_nodes.push(value);
            true
        } else {
            false
        }
    }

    /// Makes room at position `idx` for a tree that takes the place of
    /// another: an entry that names nothing yet is put there, and the
    /// entries from `idx` on move up by one.
    pub fn make_room(&mut self, idx: usize) -> (done: bool)
        ensures
            done == (idx <= old(self)@.nodes.len()),
            done ==> idx < usize::MAX,
            final(self)@ == old(self)@.make_room(idx),
    {
        self.insert(idx, usize::MAX)
    }

    /// Takes out the entry at position `idx`, if there is one.
    pub fn remove(&mut self, idx: usize) -> (r: Option<usize>)
        ensures
            r == old(self)@.get(idx),
            final(self)@ == old(self)@.remove(idx),
    {
        if idx < self.mounted_dynamic_nodes.len() {
            Some(self.mounted_dynamic_nodes.remove(idx))
        } else {
            None
        }
    }
}

} // verus!
