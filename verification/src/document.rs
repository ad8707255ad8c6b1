//! A complete document: metadata plus the document tree.

use vstd::prelude::*;

use crate::errors::VeloraResult;
use crate::node::Node;
use crate::tree::DomTree;
use crate::types::NodeId;

verus! {

/// A document: a document tree with a title, an address and an encoding.
pub struct Document {
    id: NodeId,
    title: Option<String>,
    url: Option<String>,
    encoding: String,
    dom_tree: DomTree,
}

impl Document {
    /// The document's own invariant: its tree is well formed.
    pub open spec fn wf(self) -> bool {
        self.spec_tree().wf()
    }

    /// The document tree (ghost).
    pub closed spec fn spec_tree(self) -> DomTree {
        self.dom_tree
    }

    /// The document identifier (ghost).
    pub closed spec fn spec_id(self) -> NodeId {
        self.id
    }

    /// The title (ghost).
    pub closed spec fn spec_title(self) -> Option<String> {
        self.title
    }

    /// The address (ghost).
    pub closed spec fn spec_url(self) -> Option<String> {
        self.url
    }

    /// The encoding (ghost).
    pub closed spec fn spec_encoding(self) -> Seq<char> {
        self.encoding@
    }

    /// Creates an empty document encoded as UTF-8.
    pub fn new(id: NodeId) -> (r: Document)
        ensures
            r.wf(),
            r.spec_id() == id,
            r.spec_title() is None,
            r.spec_url() is None,
            r.spec_encoding() == "UTF-8"@,
            r.spec_tree().spec_node_count() == 0,
            r.spec_tree().root() is None,
            r.spec_tree().can_allocate(),
    {
        Document {
            id,
            title: None,
            url: None,
            encoding: "UTF-8".to_owned(),
            dom_tree: DomTree::new(),
        }
    }

    /// The document identifier.
    pub fn get_id(&self) -> (r: NodeId)
        ensures
            r == self.spec_id(),
    {
        self.id
    }

    /// The title, if set.
    pub fn title(&self) -> (r: Option<&str>)
        ensures
            match r {
                Some(t) => self.spec_title() is Some && t@ == self.spec_title()->0@,
                None => self.spec_title() is None,
            },
    {
        match &self.title {
            Some(t) => Some(t.as_str()),
            None => None,
        }
    }

    /// Sets the title.
    pub fn set_title(&mut self, title: String)
        ensures
            final(self).spec_title() == Some(title),
            final(self).spec_id() == old(self).spec_id(),
            final(self).spec_url() == old(self).spec_url(),
            final(self).spec_encoding() == old(self).spec_encoding(),
            final(self).spec_tree() == old(self).spec_tree(),
    {
        self.title = Some(title);
    }

    /// The address, if set.
    pub fn url(&self) -> (r: Option<&str>)
        ensures
            match r {
                Some(u) => self.spec_url() is Some && u@ == self.spec_url()->0@,
                None => self.spec_url() is None,
            },
    {
        match &self.url {
            Some(u) => Some(u.as_str()),
            None => None,
        }
    }

    /// Sets the address.
    pub fn set_url(&mut self, url: String)
        ensures
            final(self).spec_url() == Some(url),
            final(self).spec_id() == old(self).spec_id(),
            final(self).spec_title() == old(self).spec_title(),
            final(self).spec_encoding() == old(self).spec_encoding(),
            final(self).spec_tree() == old(self).spec_tree(),
    {
        self.url = Some(url);
    }

    /// The encoding.
    pub fn encoding(&self) -> (r: &str)
        ensures
            r@ == self.spec_encoding(),
    {
        self.encoding.as_str()
    }

    /// Sets the encoding.
    pub fn set_encoding(&mut self, encoding: String)
        ensures
            final(self).spec_encoding() == encoding@,
            final(self).spec_id() == old(self).spec_id(),
            final(self).spec_title() == old(self).spec_title(),
            final(self).spec_url() == old(self).spec_url(),
            final(self).spec_tree() == old(self).spec_tree(),
    {
        self.encoding = encoding;
    }

    /// The document tree.
    pub fn get_dom_tree(&self) -> (r: &DomTree)
        ensures
            *r == self.spec_tree(),
    {
        &self.dom_tree
    }

    /// The document tree, for mutation.
    pub fn get_dom_tree_mut(&mut self) -> (r: &mut DomTree)
        ensures
            *r == old(self).spec_tree(),
            final(self).spec_tree() == *final(r),
            final(self).spec_id() == old(self).spec_id(),
            final(self).spec_title() == old(self).spec_title(),
            final(self).spec_url() == old(self).spec_url(),
            final(self).spec_encoding() == old(self).spec_encoding(),
    {
        &mut self.dom_tree
    }

    /// Replaces the document tree.
    pub fn set_dom_tree(&mut self, dom_tree: DomTree)
        ensures
            final(self).spec_tree() == dom_tree,
            final(self).spec_id() == old(self).spec_id(),
            final(self).spec_title() == old(self).spec_title(),
            final(self).spec_url() == old(self).spec_url(),
            final(self).spec_encoding() == old(self).spec_encoding(),
    {
        self.dom_tree = dom_tree;
    }

    /// The first stored node named `html`; absent exactly when no stored
    /// node bears the name.
    pub fn document_element(&self) -> (r: Option<&Node>)
        ensures
            match r {
                Some(n) => n.node_name@ == "html"@,
                None => forall|i: int|
                    0 <= i < self.spec_tree().node_seq().len() ==> (#[trigger] self.spec_tree(
                    ).node_seq()[i]).1.node_name@ != "html"@,
            },
    {
        self.dom_tree.find_node_by_name("html")
    }

    /// The first stored node named `head`; absent exactly when no stored
    /// node bears the name.
    pub fn head(&self) -> (r: Option<&Node>)
        ensures
            match r {
                Some(n) => n.node_name@ == "head"@,
                None => forall|i: int|
                    0 <= i < self.spec_tree().node_seq().len() ==> (#[trigger] self.spec_tree(
                    ).node_seq()[i]).1.node_name@ != "head"@,
            },
    {
        self.dom_tree.find_node_by_name("head")
    }

    /// The first stored node named `body`; absent exactly when no stored
    /// node bears the name.
    pub fn body(&self) -> (r: Option<&Node>)
        ensures
            match r {
                Some(n) => n.node_name@ == "body"@,
                None => forall|i: int|
                    0 <= i < self.spec_tree().node_seq().len() ==> (#[trigger] self.spec_tree(
                    ).node_seq()[i]).1.node_name@ != "body"@,
            },
    {
        self.dom_tree.find_node_by_name("body")
    }

    /// The first stored node whose element carries `id` as its `id`
    /// attribute; absent exactly when no stored node does.
    pub fn get_element_by_id(&self, id: &str) -> (r: Option<&Node>)
        requires
            self.wf(),
        ensures
            match r {
                Some(n) => self.spec_tree().node_has_id_attr(*n, id@),
                None => forall|i: int|
                    0 <= i < self.spec_tree().node_seq().len() ==> !self.spec_tree(
                    ).node_has_id_attr((#[trigger] self.spec_tree().node_seq()[i]).1, id@),
            },
    {
        self.dom_tree.find_element_by_id(id)
    }

    /// All stored nodes named `tag_name`, in insertion order: exactly the
    /// filtered sequence.
    pub fn get_elements_by_tag_name(&self, tag_name: &str) -> (r: Vec<&Node>)
        ensures
            r@.len() == crate::tree::nodes_named(self.spec_tree().node_seq(), tag_name@).len(),
            forall|k: int|
                0 <= k < r@.len() ==> *(#[trigger] r@[k]) == crate::tree::nodes_named(
                    self.spec_tree().node_seq(),
                    tag_name@,
                )[k],
    {
        self.dom_tree.find_nodes_by_name(tag_name)
    }

    /// All stored nodes whose element record carries class `class_name`, in
    /// insertion order: exactly the filtered sequence.
    pub fn get_elements_by_class_name(&self, class_name: &str) -> (r: Vec<&Node>)
        requires
            self.wf(),
        ensures
            r@.len() == crate::tree::nodes_with_class(
                self.spec_tree().node_seq(),
                self.spec_tree().elements_map(),
                class_name@,
            ).len(),
            forall|k: int|
                0 <= k < r@.len() ==> *(#[trigger] r@[k]) == crate::tree::nodes_with_class(
                    self.spec_tree().node_seq(),
                    self.spec_tree().elements_map(),
                    class_name@,
                )[k],
    {
        self.dom_tree.find_elements_by_class(class_name)
    }

    /// Allocates an element in the document tree.
    pub fn create_element(&mut self, tag_name: &str) -> (r: VeloraResult<NodeId>)
        requires
            old(self).wf(),
            old(self).spec_tree().can_allocate(),
        ensures
            final(self).wf(),
            r is Ok,
            final(self).spec_tree().spec_node_count() == old(self).spec_tree().spec_node_count()
                + 1,
            final(self).spec_tree().spec_element_count() == old(
                self,
            ).spec_tree().spec_element_count() + 1,
            final(self).spec_tree().nodes_map().contains_key(r->Ok_0.0),
            final(self).spec_tree().next_node() == old(self).spec_tree().next_node() + 1,
            final(self).spec_tree().next_element() == old(self).spec_tree().next_element() + 1,
            final(self).spec_id() == old(self).spec_id(),
    {
        let r = self.dom_tree.create_element(tag_name);
        proof {
            assert(r is Ok);
        }
        r
    }

    /// Allocates a text node in the document tree.
    pub fn create_text_node(&mut self, text: &str) -> (r: VeloraResult<NodeId>)
        requires
            old(self).wf(),
            old(self).spec_tree().can_allocate(),
        ensures
            final(self).wf(),
            r is Ok,
            final(self).spec_tree().spec_node_count() == old(self).spec_tree().spec_node_count()
                + 1,
            final(self).spec_tree().nodes_map().contains_key(r->Ok_0.0),
            final(self).spec_tree().next_node() == old(self).spec_tree().next_node() + 1,
            final(self).spec_tree().next_element() == old(self).spec_tree().next_element(),
            final(self).spec_id() == old(self).spec_id(),
    {
        self.dom_tree.create_text_node(text)
    }

    /// Appends a child in the document tree; see the tree's `append_child`.
    pub fn append_child(&mut self, parent_id: NodeId, child_id: NodeId) -> (r: VeloraResult<()>)
        requires
            old(self).wf(),
        ensures
            final(self).wf(),
            final(self).spec_id() == old(self).spec_id(),
            r is Ok <==> ({
                let m = old(self).spec_tree().nodes_map();
                m.contains_key(parent_id.0) && m.contains_key(child_id.0)
            }),
    {
        self.dom_tree.append_child(parent_id, child_id)
    }

    /// Removes a child in the document tree; see the tree's `remove_child`.
    pub fn remove_child(&mut self, parent_id: NodeId, child_id: NodeId) -> (r: VeloraResult<()>)
        requires
            old(self).wf(),
        ensures
            final(self).wf(),
            final(self).spec_id() == old(self).spec_id(),
            r is Ok <==> ({
                let m = old(self).spec_tree().nodes_map();
                m.contains_key(parent_id.0) && m.contains_key(child_id.0)
                    && m[parent_id.0].child_ids@.contains(child_id)
            }),
    {
        self.dom_tree.remove_child(parent_id, child_id)
    }

    /// A deep copy of the document under a fresh identifier: the copied
    /// tree keeps its identifiers, root and counters, and every node and
    /// element agrees field for field with the original's; the copy shares no
    /// mutable state with the original.
    pub fn duplicate(&self, new_id: NodeId) -> (r: Document)
        ensures
            self.wf() ==> r.wf(),
            r.spec_id() == new_id,
            r.spec_title() == self.spec_title(),
            r.spec_url() == self.spec_url(),
            r.spec_encoding() == self.spec_encoding(),
            r.spec_tree().spec_node_count() == self.spec_tree().spec_node_count(),
            r.spec_tree().spec_element_count() == self.spec_tree().spec_element_count(),
            r.spec_tree().root() == self.spec_tree().root(),
            r.spec_tree().next_node() == self.spec_tree().next_node(),
            r.spec_tree().next_element() == self.spec_tree().next_element(),
            r.spec_tree().nodes_map().dom() == self.spec_tree().nodes_map().dom(),
            r.spec_tree().elements_map().dom() == self.spec_tree().elements_map().dom(),
            forall|k: u64| #[trigger]
                self.spec_tree().nodes_map().contains_key(k)
                    ==> r.spec_tree().nodes_map()[k].equiv(self.spec_tree().nodes_map()[k]),
            forall|k: u64| #[trigger]
                self.spec_tree().elements_map().contains_key(k)
                    ==> r.spec_tree().elements_map()[k].equiv(self.spec_tree().elements_map()[k]),
    {
        Document {
            id: new_id,
            title: crate::node::clone_opt_string(&self.title),
            url: crate::node::clone_opt_string(&self.url),
            encoding: self.encoding.clone(),
            dom_tree: self.dom_tree.clone(),
        }
    }
}

impl Default for Document {
    /// An empty document under identifier 1.
    fn default() -> (r: Document)
        ensures
            r.wf(),
            r.spec_id() == NodeId(1),
    {
        Document::new(NodeId(1))
    }
}

} // verus!
