//! Document nodes.
//!
//! A node is one position in the document tree. It never owns other nodes:
//! parent, child and sibling relations are identifier references resolved
//! through the store.

use vstd::prelude::*;

use crate::assoc::{sget, skeys_unique, smap_of, sremove, sset};
use crate::errors::{DomError, VeloraError, VeloraResult};
use crate::types::{ElementId, NodeId};

verus! {

/// Kinds of document nodes.
#[derive(Debug, Clone, Copy, PartialEq, Eq, Structural)]
pub enum NodeType {
    Element,
    Text,
    Comment,
    Document,
    DocumentType,
    ProcessingInstruction,
}

/// A node in the document tree.
pub struct Node {
    /// Unique identifier of this node.
    pub id: NodeId,
    /// Kind of this node.
    pub node_type: NodeType,
    /// Node name: the tag name for elements, a sentinel such as `#text`
    /// otherwise.
    pub node_name: String,
    /// Node value: text or comment content.
    pub node_value: Option<String>,
    /// Parent node identifier; absent for a root.
    pub parent_id: Option<NodeId>,
    /// Child node identifiers, in document order.
    pub child_ids: Vec<NodeId>,
    /// Previous sibling, consistent with the parent's child order.
    pub previous_sibling_id: Option<NodeId>,
    /// Next sibling, consistent with the parent's child order.
    pub next_sibling_id: Option<NodeId>,
    /// The element record of an element node.
    pub element_id: Option<ElementId>,
    /// Open-ended extension data, keyed by unique names.
    pub data: Vec<(String, serde_json::Value)>,
}

impl Node {
    /// The node's own invariant: the extension-data keys are unique.
    pub open spec fn wf(&self) -> bool {
        skeys_unique(self.data@)
    }

    /// Field-for-field agreement, with the vector fields compared by view.
    pub open spec fn equiv(self, other: Node) -> bool {
        &&& self.id == other.id
        &&& self.node_type == other.node_type
        &&& self.node_name@ == other.node_name@
        &&& self.node_value == other.node_value
        &&& self.parent_id == other.parent_id
        &&& self.child_ids@ == other.child_ids@
        &&& self.previous_sibling_id == other.previous_sibling_id
        &&& self.next_sibling_id == other.next_sibling_id
        &&& self.element_id == other.element_id
        &&& self.data@ == other.data@
    }

    /// A node fresh out of a constructor: detached and without extension
    /// data.
    pub open spec fn is_fresh(&self) -> bool {
        self.parent_id is None && self.child_ids@.len() == 0 && self.previous_sibling_id is None
            && self.next_sibling_id is None && self.data@.len() == 0
    }

    /// Creates a detached node.
    pub fn new(id: NodeId, node_type: NodeType, node_name: String, node_value: Option<String>) -> (r:
        Node)
        ensures
            r.id == id,
            r.node_type == node_type,
            r.node_name@ == node_name@,
            r.node_value == node_value,
            r.element_id is None,
            r.is_fresh(),
            r.wf(),
    {
        Node {
            id,
            node_type,
            node_name,
            node_value,
            parent_id: None,
            child_ids: Vec::new(),
            previous_sibling_id: None,
            next_sibling_id: None,
            element_id: None,
            data: Vec::new(),
        }
    }

    /// Creates a detached element node named by its tag.
    pub fn new_element(id: NodeId, tag_name: String) -> (r: Node)
        ensures
            r.id == id,
            r.node_type == NodeType::Element,
            r.node_name@ == tag_name@,
            r.node_value is None,
            r.element_id is None,
            r.is_fresh(),
            r.wf(),
    {
        Node::new(id, NodeType::Element, tag_name, None)
    }

    /// Creates a detached text node holding `text`.
    pub fn new_text(id: NodeId, text: String) -> (r: Node)
        ensures
            r.id == id,
            r.node_type == NodeType::Text,
            r.node_name@ == "#text"@,
            r.node_value == Some(text),
            r.element_id is None,
            r.is_fresh(),
            r.wf(),
    {
        Node::new(id, NodeType::Text, "#text".to_owned(), Some(text))
    }

    /// Creates a detached comment node holding `comment`.
    pub fn new_comment(id: NodeId, comment: String) -> (r: Node)
        ensures
            r.id == id,
            r.node_type == NodeType::Comment,
            r.node_name@ == "#comment"@,
            r.node_value == Some(comment),
            r.element_id is None,
            r.is_fresh(),
            r.wf(),
    {
        Node::new(id, NodeType::Comment, "#comment".to_owned(), Some(comment))
    }

    /// Creates a detached document node.
    pub fn new_document(id: NodeId) -> (r: Node)
        ensures
            r.id == id,
            r.node_type == NodeType::Document,
            r.node_name@ == "#document"@,
            r.node_value is None,
            r.element_id is None,
            r.is_fresh(),
            r.wf(),
    {
        Node::new(id, NodeType::Document, "#document".to_owned(), None)
    }

    /// Whether this is an element node.
    pub fn is_element(&self) -> (r: bool)
        ensures
            r == (self.node_type is Element),
    {
        matches!(self.node_type, NodeType::Element)
    }

    /// Whether this is a text node.
    pub fn is_text(&self) -> (r: bool)
        ensures
            r == (self.node_type is Text),
    {
        matches!(self.node_type, NodeType::Text)
    }

    /// Whether this is a comment node.
    pub fn is_comment(&self) -> (r: bool)
        ensures
            r == (self.node_type is Comment),
    {
        matches!(self.node_type, NodeType::Comment)
    }

    /// Whether this is a document node.
    pub fn is_document(&self) -> (r: bool)
        ensures
            r == (self.node_type is Document),
    {
        matches!(self.node_type, NodeType::Document)
    }

    /// Whether the node has children.
    pub fn has_children(&self) -> (r: bool)
        ensures
            r == (self.child_ids@.len() > 0),
    {
        !self.child_ids.is_empty()
    }

    /// Whether the node has a parent.
    pub fn has_parent(&self) -> (r: bool)
        ensures
            r == (self.parent_id is Some),
    {
        self.parent_id.is_some()
    }

    /// Whether the node has a sibling on either side.
    pub fn has_siblings(&self) -> (r: bool)
        ensures
            r == (self.previous_sibling_id is Some || self.next_sibling_id is Some),
    {
        self.previous_sibling_id.is_some() || self.next_sibling_id.is_some()
    }

    /// Number of children.
    pub fn child_count(&self) -> (r: usize)
        ensures
            r == self.child_ids@.len(),
    {
        self.child_ids.len()
    }

    /// Whether the node has no children.
    pub fn is_leaf(&self) -> (r: bool)
        ensures
            r == (self.child_ids@.len() == 0),
    {
        self.child_ids.is_empty()
    }

    /// Whether the node has no parent.
    pub fn is_root(&self) -> (r: bool)
        ensures
            r == (self.parent_id is None),
    {
        self.parent_id.is_none()
    }

    /// Appends `child_id` to the child sequence unless it is already listed.
    pub fn add_child(&mut self, child_id: NodeId)
        ensures
            *final(self) == (Node { child_ids: final(self).child_ids, ..*old(self) }),
            old(self).child_ids@.contains(child_id) ==> *final(self) == *old(self),
            !old(self).child_ids@.contains(child_id) ==> final(self).child_ids@ == old(
                self,
            ).child_ids@.push(child_id),
    {
        if !self.has_child(child_id) {
            self.child_ids.push(child_id);
        }
    }

    /// Position of the first occurrence of `child_id` among the children.
    pub fn find_child_index(&self, child_id: NodeId) -> (r: Option<usize>)
        ensures
            match r {
                Some(i) => i < self.child_ids@.len() && self.child_ids@[i as int] == child_id
                    && forall|j: int| 0 <= j < i ==> self.child_ids@[j] != child_id,
                None => !self.child_ids@.contains(child_id),
            },
    {
        let n = self.child_ids.len();
        let mut i: usize = 0;
        while i < n
            invariant
                n == self.child_ids@.len(),
                i <= n,
                forall|j: int| 0 <= j < i ==> self.child_ids@[j] != child_id,
            decreases n - i,
        {
            if self.child_ids[i] == child_id {
                return Some(i);
            }
            i = i + 1;
        }
        None
    }

    /// Removes `child_id` from the child sequence; returns whether it was
    /// listed.
    pub fn remove_child(&mut self, child_id: NodeId) -> (r: bool)
        ensures
            r == old(self).child_ids@.contains(child_id),
            !r ==> *final(self) == *old(self),
            *final(self) == (Node { child_ids: final(self).child_ids, ..*old(self) }),
            r ==> exists|i: int|
                {
                    &&& 0 <= i < old(self).child_ids@.len()
                    &&& old(self).child_ids@[i] == child_id
                    &&& (forall|j: int| 0 <= j < i ==> old(self).child_ids@[j] != child_id)
                    &&& final(self).child_ids@ == old(self).child_ids@.remove(i)
                },
    {
        match self.find_child_index(child_id) {
            Some(i) => {
                proof {
                    assert(old(self).child_ids@[i as int] == child_id);
                }
                self.child_ids.remove(i);
                proof {
                    let ghost wi = i as int;
                    assert(0 <= wi < old(self).child_ids@.len() && old(self).child_ids@[wi]
                        == child_id && (forall|j: int|
                        0 <= j < wi ==> old(self).child_ids@[j] != child_id) && self.child_ids@
                        == old(self).child_ids@.remove(wi));
                }
                true
            },
            None => false,
        }
    }

    /// Whether `child_id` is listed among the children.
    pub fn has_child(&self, child_id: NodeId) -> (r: bool)
        ensures
            r == self.child_ids@.contains(child_id),
    {
        match self.find_child_index(child_id) {
            Some(i) => {
                proof {
                    assert(self.child_ids@[i as int] == child_id);
                }
                true
            },
            None => false,
        }
    }

    /// The first child, if any.
    pub fn first_child(&self) -> (r: Option<NodeId>)
        ensures
            r == if self.child_ids@.len() > 0 {
                Some(self.child_ids@[0])
            } else {
                None::<NodeId>
            },
    {
        if self.child_ids.len() > 0 {
            Some(self.child_ids[0])
        } else {
            None
        }
    }

    /// The last child, if any.
    pub fn last_child(&self) -> (r: Option<NodeId>)
        ensures
            r == if self.child_ids@.len() > 0 {
                Some(self.child_ids@.last())
            } else {
                None::<NodeId>
            },
    {
        if self.child_ids.len() > 0 {
            Some(self.child_ids[self.child_ids.len() - 1])
        } else {
            None
        }
    }

    /// Sets the parent reference.
    pub fn set_parent(&mut self, parent_id: NodeId)
        ensures
            *final(self) == (Node { parent_id: Some(parent_id), ..*old(self) }),
    {
        self.parent_id = Some(parent_id);
    }

    /// Clears the parent reference.
    pub fn clear_parent(&mut self)
        ensures
            *final(self) == (Node { parent_id: None, ..*old(self) }),
    {
        self.parent_id = None;
    }

    /// Sets the previous-sibling reference.
    pub fn set_previous_sibling(&mut self, sibling_id: NodeId)
        ensures
            *final(self) == (Node { previous_sibling_id: Some(sibling_id), ..*old(self) }),
    {
        self.previous_sibling_id = Some(sibling_id);
    }

    /// Sets the next-sibling reference.
    pub fn set_next_sibling(&mut self, sibling_id: NodeId)
        ensures
            *final(self) == (Node { next_sibling_id: Some(sibling_id), ..*old(self) }),
    {
        self.next_sibling_id = Some(sibling_id);
    }

    /// Clears both sibling references.
    pub fn clear_siblings(&mut self)
        ensures
            *final(self) == (Node {
                previous_sibling_id: None,
                next_sibling_id: None,
                ..*old(self)
            }),
    {
        self.previous_sibling_id = None;
        self.next_sibling_id = None;
    }

    /// Attaches an element record; rejected on non-element nodes.
    pub fn set_element_id(&mut self, element_id: ElementId) -> (r: VeloraResult<()>)
        ensures
            old(self).node_type is Element ==> r is Ok && *final(self) == (Node {
                element_id: Some(element_id),
                ..*old(self)
            }),
            !(old(self).node_type is Element) ==> r == Err::<(), VeloraError>(
                VeloraError::Dom(DomError::InvalidNodeType),
            ) && *final(self) == *old(self),
    {
        if self.is_element() {
            self.element_id = Some(element_id);
            Ok(())
        } else {
            Err(VeloraError::Dom(DomError::InvalidNodeType))
        }
    }

    /// The element record, if one is attached.
    pub fn get_element_id(&self) -> (r: Option<ElementId>)
        ensures
            r == self.element_id,
    {
        self.element_id
    }

    /// Stores extension data under `key`, replacing any previous value.
    pub fn set_data(&mut self, key: String, value: serde_json::Value)
        requires
            old(self).wf(),
        ensures
            final(self).wf(),
            smap_of(final(self).data@) == smap_of(old(self).data@).insert(key@, value),
            *final(self) == (Node { data: final(self).data, ..*old(self) }),
    {
        sset(&mut self.data, key, value);
    }

    /// The extension data stored under `key`, if any.
    pub fn get_data(&self, key: &str) -> (r: Option<&serde_json::Value>)
        requires
            self.wf(),
        ensures
            match r {
                Some(v) => smap_of(self.data@).contains_key(key@) && *v == smap_of(self.data@)[key@],
                None => !smap_of(self.data@).contains_key(key@),
            },
    {
        sget(&self.data, key)
    }

    /// Removes and returns the extension data stored under `key`.
    pub fn remove_data(&mut self, key: &str) -> (r: Option<serde_json::Value>)
        requires
            old(self).wf(),
        ensures
            final(self).wf(),
            smap_of(final(self).data@) == smap_of(old(self).data@).remove(key@),
            r is Some <==> smap_of(old(self).data@).contains_key(key@),
            r is Some ==> r->0 == smap_of(old(self).data@)[key@],
            *final(self) == (Node { data: final(self).data, ..*old(self) }),
    {
        sremove(&mut self.data, key)
    }

    /// The node's own text: the value of a text (or comment) node, empty for
    /// elements and valueless nodes.
    pub fn get_text_content(&self) -> (r: String)
        ensures
            r@ == if self.node_type is Element {
                Seq::<char>::empty()
            } else {
                match self.node_value {
                    Some(v) => v@,
                    None => Seq::<char>::empty(),
                }
            },
    {
        match self.node_type {
            NodeType::Element => String::new(),
            _ => match &self.node_value {
                Some(v) => v.clone(),
                None => String::new(),
            },
        }
    }

    /// A detached copy of this node under a fresh identifier: same kind, name,
    /// value and extension data; no parent, children, siblings or element.
    pub fn clone_with_id(&self, new_id: NodeId) -> (r: Node)
        ensures
            r.id == new_id,
            r.node_type == self.node_type,
            r.node_name@ == self.node_name@,
            r.node_value == self.node_value,
            r.element_id is None,
            r.parent_id is None,
            r.child_ids@.len() == 0,
            r.previous_sibling_id is None,
            r.next_sibling_id is None,
            r.data@ == self.data@,
            self.wf() ==> r.wf(),
    {
        Node {
            id: new_id,
            node_type: self.node_type,
            node_name: self.node_name.clone(),
            node_value: clone_opt_string(&self.node_value),
            parent_id: None,
            child_ids: Vec::new(),
            previous_sibling_id: None,
            next_sibling_id: None,
            element_id: None,
            data: clone_data(&self.data),
        }
    }
}

impl Clone for Node {
    /// A field-for-field copy of the original.
    fn clone(&self) -> (r: Self)
        ensures
            r.equiv(*self),
    {
        Node {
            id: self.id,
            node_type: self.node_type,
            node_name: self.node_name.clone(),
            node_value: clone_opt_string(&self.node_value),
            parent_id: self.parent_id,
            child_ids: clone_ids(&self.child_ids),
            previous_sibling_id: self.previous_sibling_id,
            next_sibling_id: self.next_sibling_id,
            element_id: self.element_id,
            data: clone_data(&self.data),
        }
    }
}

/// Copies an optional string.
pub fn clone_opt_string(s: &Option<String>) -> (r: Option<String>)
    ensures
        r == *s,
{
    match s {
        Some(v) => Some(v.clone()),
        None => None,
    }
}

/// Copies a vector of identifiers.
pub fn clone_ids(v: &Vec<NodeId>) -> (r: Vec<NodeId>)
    ensures
        r@ == v@,
{
    let mut out: Vec<NodeId> = Vec::new();
    let n = v.len();
    let mut i: usize = 0;
    while i < n
        invariant
            n == v@.len(),
            i <= n,
            out@ == v@.subrange(0, i as int),
        decreases n - i,
    {
        out.push(v[i]);
        proof {
            assert(out@ =~= v@.subrange(0, i + 1));
        }
        i = i + 1;
    }
    proof {
        assert(v@.subrange(0, n as int) =~= v@);
    }
    out
}

/// Copies an extension-data list.
pub fn clone_data(v: &Vec<(String, serde_json::Value)>) -> (r: Vec<(String, serde_json::Value)>)
    ensures
        r@ == v@,
{
    let mut out: Vec<(String, serde_json::Value)> = Vec::new();
    let n = v.len();
    let mut i: usize = 0;
    while i < n
        invariant
            n == v@.len(),
            i <= n,
            out@ == v@.subrange(0, i as int),
        decreases n - i,
    {
        let key = v[i].0.clone();
        let value = v[i].1.clone();
        proof {
            assert((key, value) == v@[i as int]);
        }
        out.push((key, value));
        proof {
            assert(out@ =~= v@.subrange(0, i + 1));
        }
        i = i + 1;
    }
    proof {
        assert(v@.subrange(0, n as int) =~= v@);
    }
    out
}

} // verus!
