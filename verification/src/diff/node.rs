//! Creating, diffing and removing the host nodes of a rendered tree.

use crate::diff::model::Pass;
use crate::mutations::{Mutation, Removal, WriteMutations};
use crate::nodes::{AnyProps, Attribute, ElementId, ElementRef, VNode, VNodeMount};
use crate::runtime::ScopeId;
use crate::virtual_dom::{DiffError, VirtualDom, MAX_SCOPE_HEIGHT};
use vstd::prelude::*;

verus! {

/// Whether a scope at depth `child` may be entered from a tree at depth
/// `height`.
pub(crate) fn deeper(child: Option<usize>, height: usize) -> (b: bool)
    ensures
        b == crate::diff::model::deeper(child, height),
{
    match child {
        Some(h) => height < MAX_SCOPE_HEIGHT && h > height,
        None => false,
    }
}

/// Whether a diff patches the two nodes in place as elements.
#[verifier::loop_isolation(false)]
fn same_shape<P>(old: &VNode<P>, new: &VNode<P>) -> (b: bool)
    ensures
        b == crate::diff::model::same_shape(*old, *new),
{
    match old {
        VNode::Element { tag, attrs, children } => match new {
            VNode::Element { tag: new_tag, attrs: new_attrs, children: new_children } => {
                if !(*tag == *new_tag) || attrs.len() != new_attrs.len() || children.len()
                    != new_children.len() {
                    return false;
                }
                let mut i: usize = 0;
                while i < attrs.len()
                    invariant
                        i <= attrs.len(),
                        attrs.len() == new_attrs.len(),
                        forall|j: int|
                            0 <= j < i ==> (#[trigger] attrs@[j]).name@ == new_attrs@[j].name@,
                    decreases attrs.len() - i,
                {
                    if !(attrs[i].name == new_attrs[i].name) {
                        assert(old->attrs@[i as int].name@ != new->attrs@[i as int].name@);
                        return false;
                    }
                    i += 1;
                }
                true
            },
            _ => false,
        },
        _ => false,
    }
}

/// Sets every attribute of a new element.
fn set_attributes<M: WriteMutations>(attrs: &Vec<Attribute>, id: ElementId, to: &mut M)
    ensures
        final(to).edits() == crate::diff::model::set_attributes(old(to).edits(), attrs@, id),
{
    let mut i: usize = 0;
    while i < attrs.len()
        invariant
            i <= attrs.len(),
            to.edits() == old(to).edits() + Seq::new(
                i as nat,
                |j: int|
                    Mutation::SetAttribute { name: attrs@[j].name, value: attrs@[j].value, id },
            ),
        decreases attrs.len() - i,
    {
        to.set_attribute(&attrs[i].name, &attrs[i].value, id);
        i += 1;
    }
}

/// Sets the attributes whose value changed, and those that an attribute
/// of the same name, set before them, would else hide. The two lists name
/// the same attributes in the same order.
fn patch_attributes<M: WriteMutations>(
    old_attrs: &Vec<Attribute>,
    new_attrs: &Vec<Attribute>,
    id: ElementId,
    to: &mut M,
)
    requires
        old_attrs@.len() == new_attrs@.len(),
    ensures
        final(to).edits() == crate::diff::model::patch_attributes(
            old(to).edits(),
            old_attrs@,
            new_attrs@,
            id,
            0,
        ),
{
    // the positions done whose value differs
    let mut changed: Vec<usize> = Vec::new();
    let mut i: usize = 0;
    while i < new_attrs.len()
        invariant
            i <= new_attrs.len(),
            old_attrs@.len() == new_attrs@.len(),
            forall|c: int|
                0 <= c < changed@.len() ==> (#[trigger] changed@[c]) < i
                    && crate::diff::model::differs(old_attrs@, new_attrs@, changed@[c] as int),
            forall|k: int|
                0 <= k < i && #[trigger] crate::diff::model::differs(old_attrs@, new_attrs@, k)
                    ==> exists|c: int| 0 <= c < changed@.len() && #[trigger] changed@[c] == k,
            crate::diff::model::patch_attributes(to.edits(), old_attrs@, new_attrs@, id, i as int)
                == crate::diff::model::patch_attributes(
                old(to).edits(),
                old_attrs@,
                new_attrs@,
                id,
                0,
            ),
        decreases new_attrs.len() - i,
    {
        let differs = !(old_attrs[i].value == new_attrs[i].value);
        let mut set = differs;
        proof {
            if differs {
                assert(crate::diff::model::differs(old_attrs@, new_attrs@, i as int));
            }
        }
        let mut c: usize = 0;
        while c < changed.len() && !set
            invariant
                c <= changed.len(),
                i < new_attrs.len(),
                old_attrs@.len() == new_attrs@.len(),
                forall|d: int| 0 <= d < changed@.len() ==> (#[trigger] changed@[d]) < i,
                set ==> crate::diff::model::must_set(old_attrs@, new_attrs@, i as int),
                !set ==> !differs && forall|d: int|
                    0 <= d < c ==> new_attrs@[(#[trigger] changed@[d]) as int].name@
                        != new_attrs@[i as int].name@,
                differs == crate::diff::model::differs(old_attrs@, new_attrs@, i as int),
                forall|d: int|
                    0 <= d < changed@.len() ==> crate::diff::model::differs(
                        old_attrs@,
                        new_attrs@,
                        (#[trigger] changed@[d]) as int,
                    ),
            decreases changed.len() - c,
        {
            if new_attrs[changed[c]].name == new_attrs[i].name {
                set = true;
            }
            c += 1;
        }
        proof {
            if !set && crate::diff::model::must_set(old_attrs@, new_attrs@, i as int) {
                let k = choose|k: int|
                    0 <= k <= i && #[trigger] crate::diff::model::differs(
                        old_attrs@,
                        new_attrs@,
                        k,
                    ) && new_attrs@[k].name@ == new_attrs@[i as int].name@;
                let d = choose|d: int| 0 <= d < changed@.len() && #[trigger] changed@[d] == k;
                assert(new_attrs@[changed@[d] as int].name@ != new_attrs@[i as int].name@);
            }
        }
        if set {
            to.set_attribute(&new_attrs[i].name, &new_attrs[i].value, id);
        }
        let ghost before = changed@;
        if differs {
            changed.push(i);
            proof {
                assert forall|k: int|
                    0 <= k < i + 1 && #[trigger] crate::diff::model::differs(
                        old_attrs@,
                        new_attrs@,
                        k,
                    ) implies exists|c: int| 0 <= c < changed@.len() && #[trigger] changed@[c]
                    == k by {
                    if k == i {
                        assert(changed@[changed@.len() - 1] == k);
                    } else {
                        let c = choose|c: int| 0 <= c < before.len() && #[trigger] before[c] == k;
                        assert(changed@[c] == k);
                    }
                }
            }
        }
        i += 1;
    }
}

/// Writes the removal of a host node as `removal` says.
fn emit_removal<M: WriteMutations>(id: ElementId, removal: Removal, to: &mut M)
    ensures
        final(to).edits() == (match removal {
            Removal::Silent => old(to).edits(),
            Removal::Remove => old(to).edits().push((Mutation::Remove { id })),
            Removal::ReplaceWith(m) => old(to).edits().push((Mutation::ReplaceWith { id, m })),
        }),
{
    match removal {
        Removal::Silent => {},
        Removal::Remove => to.remove_node(id),
        Removal::ReplaceWith(m) => to.replace_node_with(id, m),
    }
}

impl<P> VNode<P> {
    /// Creates the host structure of this tree and records what each node
    /// was mounted as, from position `idx` of the mount on. Returns the
    /// position after the last entry made. The root created is left on
    /// the renderer's stack. At a position of the mount, creation is given
    /// up only where components nest too deep.
    #[verifier::loop_isolation(false)]
    pub fn create<T, M: WriteMutations>(
        &self,
        mount: &mut VNodeMount,
        idx: usize,
        parent: Option<ElementRef>,
        dom: &mut VirtualDom<T, P>,
        to: &mut M,
    ) -> (r: Result<usize, DiffError>) where P: AnyProps<T>
        ensures
            old(dom)@.runtime.wf() ==> final(dom)@.runtime.wf(),
            final(dom)@.runtime.scope_stack == old(dom)@.runtime.scope_stack,
            final(dom)@.runtime.effect_stack == old(dom)@.runtime.effect_stack,
            (Pass { dom: old(dom)@, edits: old(to).edits() }).create(
                *self,
                old(mount)@.height,
                old(mount)@.nodes,
                idx,
                parent,
            ).matches_run(old(mount)@, final(mount)@, final(dom)@, final(to).edits(), r),
            r matches Ok(next) ==> idx < next <= final(mount)@.nodes.len(),
            idx <= old(mount)@.nodes.len() ==> r is Ok || r == Err::<usize, _>(DiffError::TooDeep),
            old(dom)@.keeps_all(final(dom)@),
        decreases crate::diff::model::level(old(mount)@.height), 2int, self,
    {
        if idx > mount.mounted_dynamic_nodes.len() {
            return Err(DiffError::InvariantViolation);
        }
        proof {
            crate::diff::laws::lemma_create_keeps_all(
                Pass { dom: dom@, edits: to.edits() },
                *self,
                mount@.height,
                mount@.nodes,
                idx,
                parent,
            );
        }
        match self {
            VNode::Text { text } => {
                let id = dom.next_element();
                to.create_text_node(text, id);
                mount.insert(idx, id.0);
                Ok(idx + 1)
            },
            VNode::Element { tag, attrs, children } => {
                let id = dom.next_element();
                to.create_element(tag, id);
                set_attributes(attrs, id, to);
                mount.insert(idx, id.0);
                let here = Some(ElementRef { element: id });
                let ghost opened = Pass { dom: dom@, edits: to.edits() };
                let ghost first = mount@.nodes;
                let mut cursor: usize = idx + 1;
                let mut i: usize = 0;
                while i < children.len()
                    invariant
                        i <= children.len(),
                        idx < cursor <= mount@.nodes.len(),
                        old(dom)@.runtime.wf() ==> dom@.runtime.wf(),
                        dom@.runtime.scope_stack == old(dom)@.runtime.scope_stack,
                        dom@.runtime.effect_stack == old(dom)@.runtime.effect_stack,
                        mount@.height == old(mount)@.height,
                        mount@.parent == old(mount)@.parent,
                        (Pass { dom: dom@, edits: to.edits() }).create_children(
                            children@,
                            i as int,
                            mount@.height,
                            mount@.nodes,
                            cursor,
                            here,
                        ) == opened.create_children(
                            children@,
                            0,
                            mount@.height,
                            first,
                            (idx + 1) as usize,
                            here,
                        ),
                    decreases children.len() - i,
                {
                    match children[i].create(mount, cursor, here, dom, to) {
                        Ok(next) => {
                            cursor = next;
                        },
                        Err(e) => {
                            return Err(e);
                        },
                    }
                    i += 1;
                }
                to.append_children(id, children.len());
                Ok(cursor)
            },
            VNode::Component(component) => {
                mount.make_room(idx);
                match self.create_component_node(mount, idx, component, parent, dom, to) {
                    Ok(_) => Ok(idx + 1),
                    Err(e) => Err(e),
                }
            },
        }
    }

    /// Unmounts this tree, whose entries start at position `idx` of the
    /// mount: takes the entries out, gives the host ids back, removes the
    /// scopes nested in it, and writes the removal of its root as
    /// `removal` says.
    #[verifier::loop_isolation(false)]
    pub fn remove_node<T, M: WriteMutations>(
        &self,
        mount: &mut VNodeMount,
        idx: usize,
        removal: Removal,
        dom: &mut VirtualDom<T, P>,
        to: &mut M,
    ) -> (r: Result<(), DiffError>) where P: AnyProps<T>
        ensures
            old(dom)@.runtime.wf() ==> final(dom)@.runtime.wf(),
            final(dom)@.runtime.scope_stack == old(dom)@.runtime.scope_stack,
            final(dom)@.runtime.effect_stack == old(dom)@.runtime.effect_stack,
            (Pass { dom: old(dom)@, edits: old(to).edits() }).remove_node(
                *self,
                old(mount)@.height,
                old(mount)@.nodes,
                idx,
                removal,
            ).matches_run(old(mount)@, final(mount)@, final(dom)@, final(to).edits(), r),
        decreases crate::diff::model::level(old(mount)@.height), 3int, self,
    {
        let id = match mount.get(idx) {
            Some(id) => id,
            None => {
                return Err(DiffError::InvariantViolation);
            },
        };
        match self {
            VNode::Text { .. } => {
                mount.remove(idx);
                dom.reclaim(ElementId(id));
                emit_removal(ElementId(id), removal, to);
                Ok(())
            },
            VNode::Element { children, .. } => {
                mount.remove(idx);
                let ghost start = Pass { dom: dom@, edits: to.edits() };
                let ghost first = mount@.nodes;
                let mut i: usize = 0;
                while i < children.len()
                    invariant
                        i <= children.len(),
                        old(dom)@.runtime.wf() ==> dom@.runtime.wf(),
                        dom@.runtime.scope_stack == old(dom)@.runtime.scope_stack,
                        dom@.runtime.effect_stack == old(dom)@.runtime.effect_stack,
                        mount@.height == old(mount)@.height,
                        mount@.parent == old(mount)@.parent,
                        (Pass { dom: dom@, edits: to.edits() }).remove_children(
                            children@,
                            i as int,
                            mount@.height,
                            mount@.nodes,
                            idx,
                        ) == start.remove_children(children@, 0, mount@.height, first, idx),
                    decreases children.len() - i,
                {
                    match children[i].remove_node(mount, idx, Removal::Silent, dom, to) {
                        Ok(_) => {},
                        Err(e) => {
                            return Err(e);
                        },
                    }
                    i += 1;
                }
                dom.reclaim(ElementId(id));
                emit_removal(ElementId(id), removal, to);
                Ok(())
            },
            VNode::Component(_) => {
                if !deeper(dom.height_of(ScopeId(id)), mount.height) {
                    return Err(DiffError::InvariantViolation);
                }
                mount.remove(idx);
                dom.remove_component_node(to, ScopeId(id), removal)
            },
        }
    }

    /// Replaces this mounted tree by `new`: `new` is created in full, then
    /// this tree is unmounted, its root replaced in the host tree by the
    /// root of `new`.
    pub fn replace<T, M: WriteMutations>(
        &self,
        new: &VNode<P>,
        mount: &mut VNodeMount,
        idx: usize,
        parent: Option<ElementRef>,
        dom: &mut VirtualDom<T, P>,
        to: &mut M,
    ) -> (r: Result<usize, DiffError>) where P: AnyProps<T>
        ensures
            old(dom)@.runtime.wf() ==> final(dom)@.runtime.wf(),
            final(dom)@.runtime.scope_stack == old(dom)@.runtime.scope_stack,
            final(dom)@.runtime.effect_stack == old(dom)@.runtime.effect_stack,
            (Pass { dom: old(dom)@, edits: old(to).edits() }).replace(
                *self,
                *new,
                old(mount)@.height,
                old(mount)@.nodes,
                idx,
                parent,
            ).matches_run(old(mount)@, final(mount)@, final(dom)@, final(to).edits(), r),
        decreases crate::diff::model::level(old(mount)@.height), 6int,
    {
        let next = match new.create(mount, idx, parent, dom, to) {
            Ok(next) => next,
            Err(e) => {
                return Err(e);
            },
        };
        match self.remove_node(mount, next, Removal::ReplaceWith(1), dom, to) {
            Ok(_) => Ok(next),
            Err(e) => Err(e),
        }
    }

    /// Diffs this mounted tree, whose entries start at position `idx` of
    /// the mount, against `new`, and writes the mutations that turn the
    /// one into the other. Returns the position after the entries of
    /// `new`.
    #[verifier::loop_isolation(false)]
    pub fn diff_node<T, M: WriteMutations>(
        &self,
        new: &VNode<P>,
        mount: &mut VNodeMount,
        idx: usize,
        parent: Option<ElementRef>,
        dom: &mut VirtualDom<T, P>,
        to: &mut M,
    ) -> (r: Result<usize, DiffError>) where P: AnyProps<T>
        ensures
            old(dom)@.runtime.wf() ==> final(dom)@.runtime.wf(),
            final(dom)@.runtime.scope_stack == old(dom)@.runtime.scope_stack,
            final(dom)@.runtime.effect_stack == old(dom)@.runtime.effect_stack,
            (Pass { dom: old(dom)@, edits: old(to).edits() }).diff_node(
                *self,
                *new,
                old(mount)@.height,
                old(mount)@.nodes,
                idx,
                parent,
            ).matches_run(old(mount)@, final(mount)@, final(dom)@, final(to).edits(), r),
        decreases crate::diff::model::level(old(mount)@.height), 7int, new,
    {
        match self {
            VNode::Text { text } => match new {
                VNode::Text { text: new_text } => {
                    let id = match mount.get(idx) {
                        Some(id) => id,
                        None => {
                            return Err(DiffError::InvariantViolation);
                        },
                    };
                    if !(*text == *new_text) {
                        to.set_text(new_text, ElementId(id));
                    }
                    return Ok(idx + 1);
                },
                _ => {},
            },
            VNode::Element { attrs, children, .. } => match new {
                VNode::Element { attrs: new_attrs, children: new_children, .. } => {
                    if same_shape(self, new) {
                        let id = match mount.get(idx) {
                            Some(id) => id,
                            None => {
                                return Err(DiffError::InvariantViolation);
                            },
                        };
                        patch_attributes(attrs, new_attrs, ElementId(id), to);
                        let here = Some(ElementRef { element: ElementId(id) });
                        let ghost start = Pass { dom: dom@, edits: to.edits() };
                        let mut cursor: usize = idx + 1;
                        let mut i: usize = 0;
                        while i < new_children.len()
                            invariant
                                i <= new_children.len(),
                                old(dom)@.runtime.wf() ==> dom@.runtime.wf(),
                        dom@.runtime.scope_stack == old(dom)@.runtime.scope_stack,
                        dom@.runtime.effect_stack == old(dom)@.runtime.effect_stack,
                                children.len() == new_children.len(),
                                mount@.height == old(mount)@.height,
                                mount@.parent == old(mount)@.parent,
                                (Pass { dom: dom@, edits: to.edits() }).diff_children(
                                    children@,
                                    new_children@,
                                    i as int,
                                    mount@.height,
                                    mount@.nodes,
                                    cursor,
                                    here,
                                ) == start.diff_children(
                                    children@,
                                    new_children@,
                                    0,
                                    mount@.height,
                                    old(mount)@.nodes,
                                    (idx + 1) as usize,
                                    here,
                                ),
                            decreases new_children.len() - i,
                        {
                            match children[i].diff_node(
                                &new_children[i],
                                mount,
                                cursor,
                                here,
                                dom,
                                to,
                            ) {
                                Ok(next) => {
                                    cursor = next;
                                },
                                Err(e) => {
                                    return Err(e);
                                },
                            }
                            i += 1;
                        }
                        return Ok(cursor);
                    }
                },
                _ => {},
            },
            VNode::Component(component) => match new {
                VNode::Component(new_component) => {
                    let scope = match mount.get(idx) {
                        Some(scope) => scope,
                        None => {
                            return Err(DiffError::InvariantViolation);
                        },
                    };
                    return match self.diff_vcomponent(
                        mount,
                        idx,
                        new_component,
                        component,
                        ScopeId(scope),
                        parent,
                        dom,
                        to,
                    ) {
                        Ok(_) => Ok(idx + 1),
                        Err(e) => Err(e),
                    };
                },
                _ => {},
            },
        }
        self.replace(new, mount, idx, parent, dom, to)
    }
}

} // verus!
