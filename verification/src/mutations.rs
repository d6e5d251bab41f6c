//! The operations a differ emits, and the sink that takes them.

use crate::nodes::ElementId;
use vstd::prelude::*;

verus! {

/// One structural operation on the host tree. A created node is put on
/// the renderer's stack; `AppendChildren` and `ReplaceWith` take the top
/// `m` nodes off it.
#[derive(Debug, PartialEq, Eq)]
pub enum Mutation {
    CreateElement { tag: String, id: ElementId },
    CreateTextNode { value: String, id: ElementId },
    SetAttribute { name: String, value: String, id: ElementId },
    SetText { value: String, id: ElementId },
    AppendChildren { id: ElementId, m: usize },
    Remove { id: ElementId },
    ReplaceWith { id: ElementId, m: usize },
}

/// How the removal of a mounted node shows in the host tree.
#[derive(Clone, Copy, Debug, PartialEq, Eq, Structural)]
pub enum Removal {
    /// Nothing is written: the node leaves with an ancestor.
    Silent,
    /// The node is removed from the host tree.
    Remove,
    /// The node is replaced by the top nodes of the renderer's stack.
    ReplaceWith(usize),
}

/// A sink for mutations. It takes them in the order in which a renderer
/// can apply them.
pub trait WriteMutations {
    /// Everything written so far, oldest first.
    spec fn edits(&self) -> Seq<Mutation>;

    fn create_element(&mut self, tag: &String, id: ElementId)
        ensures
            final(self).edits() == old(self).edits().push(
                (Mutation::CreateElement { tag: *tag, id }),
            ),
    ;

    fn create_text_node(&mut self, value: &String, id: ElementId)
        ensures
            final(self).edits() == old(self).edits().push(
                (Mutation::CreateTextNode { value: *value, id }),
            ),
    ;

    fn set_attribute(&mut self, name: &String, value: &String, id: ElementId)
        ensures
            final(self).edits() == old(self).edits().push(
                (Mutation::SetAttribute { name: *name, value: *value, id }),
            ),
    ;

    fn set_text(&mut self, value: &String, id: ElementId)
        ensures
            final(self).edits() == old(self).edits().push(
                (Mutation::SetText { value: *value, id }),
            ),
    ;

    fn append_children(&mut self, id: ElementId, m: usize)
        ensures
            final(self).edits() == old(self).edits().push((Mutation::AppendChildren { id, m })),
    ;

    fn remove_node(&mut self, id: ElementId)
        ensures
            final(self).edits() == old(self).edits().push((Mutation::Remove { id })),
    ;

    fn replace_node_with(&mut self, id: ElementId, m: usize)
        ensures
            final(self).edits() == old(self).edits().push((Mutation::ReplaceWith { id, m })),
    ;
}

/// A sink that keeps the mutations in a buffer.
#[derive(Debug)]
pub struct Mutations {
    pub edits: Vec<Mutation>,
}

impl Mutations {
    pub fn new() -> (m: Self)
        ensures
            m.edits@ == Seq::<Mutation>::empty(),
    {
        Mutations { edits: Vec::new() }
    }
}

impl WriteMutations for Mutations {
    open spec fn edits(&self) -> Seq<Mutation> {
        self.edits@
    }

    fn create_element(&mut self, tag: &String, id: ElementId) {
        self.edits.push(Mutation::CreateElement { tag: tag.clone(), id });
    }

    fn create_text_node(&mut self, value: &String, id: ElementId) {
        self.edits.push(Mutation::CreateTextNode { value: value.clone(), id });
    }

    fn set_attribute(&mut self, name: &String, value: &String, id: ElementId) {
        self.edits.push(Mutation::SetAttribute { name: name.clone(), value: value.clone(), id });
    }

    fn set_text(&mut self, value: &String, id: ElementId) {
        self.edits.push(Mutation::SetText { value: value.clone(), id });
    }

    fn append_children(&mut self, id: ElementId, m: usize) {
        self.edits.push(Mutation::AppendChildren { id, m });
    }

    fn remove_node(&mut self, id: ElementId) {
        self.edits.push(Mutation::Remove { id });
    }

    fn replace_node_with(&mut self, id: ElementId, m: usize) {
        self.edits.push(Mutation::ReplaceWith { id, m });
    }
}

} // verus!
