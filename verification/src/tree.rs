//! The document tree: an arena of nodes and elements keyed by identifier.
//!
//! No node owns another; parent, child and sibling relations are identifier
//! references resolved through the store. The tree maintains the consistency
//! invariant: every child listed under a parent carries that parent's
//! identifier, and the sibling chain under each parent mirrors the child
//! sequence exactly.

use vstd::prelude::*;

use crate::assoc::{
    lemma_umap_dom, lemma_umap_index, lemma_umap_push, lemma_umap_update, ufind, ukeys_unique,
    umap_of,
};
use crate::element::Element;
use crate::errors::{DomError, VeloraError, VeloraResult};
use crate::node::Node;
use crate::strings::u64_to_string;
use crate::types::{ElementId, NodeId};

verus! {

/// Whether the child links of `n` are consistent within `m`: each listed
/// child exists, points back to `n` as its parent, and carries the sibling
/// references that its position in the child sequence dictates.
pub open spec fn links_ok(m: Map<u64, Node>, n: Node) -> bool {
    forall|i: int|
        0 <= i < n.child_ids@.len() ==> {
            let c = (#[trigger] n.child_ids@[i]).0;
            &&& m.contains_key(c)
            &&& m[c].parent_id == Some(n.id)
            &&& m[c].previous_sibling_id == (if i == 0 {
                None::<NodeId>
            } else {
                Some(n.child_ids@[i - 1])
            })
            &&& m[c].next_sibling_id == (if i == n.child_ids@.len() - 1 {
                None::<NodeId>
            } else {
                Some(n.child_ids@[i + 1])
            })
        }
}

/// Tree consistency over a node map: every stored node is keyed by its own
/// identifier and has consistent child links.
pub open spec fn consistent_map(m: Map<u64, Node>) -> bool {
    forall|id: u64| #[trigger]
        m.contains_key(id) ==> m[id].id.0 == id && links_ok(m, m[id])
}

/// A document tree.
pub struct DomTree {
    /// The nodes, keyed by identifier.
    nodes: Vec<(u64, Node)>,
    /// The elements, keyed by identifier.
    elements: Vec<(u64, Element)>,
    /// The root node, set once by the first insertion.
    root_id: Option<NodeId>,
    /// Next node identifier to hand out.
    next_node_id: u64,
    /// Next element identifier to hand out.
    next_element_id: u64,
}

impl DomTree {
    /// The node store as a map.
    pub closed spec fn nodes_map(self) -> Map<u64, Node> {
        umap_of(self.nodes@)
    }

    /// The element store as a map.
    pub closed spec fn elements_map(self) -> Map<u64, Element> {
        umap_of(self.elements@)
    }

    /// The root identifier.
    pub closed spec fn root(self) -> Option<NodeId> {
        self.root_id
    }

    /// Number of stored nodes.
    pub closed spec fn spec_node_count(self) -> nat {
        self.nodes@.len()
    }

    /// Number of stored elements.
    pub closed spec fn spec_element_count(self) -> nat {
        self.elements@.len()
    }

    /// The store's own shape: unique keys, each entry keyed by the identifier
    /// of the node or element it holds, identifiers below the allocation
    /// counters, and well-formed entries.
    pub closed spec fn store_wf(self) -> bool {
        &&& ukeys_unique(self.nodes@)
        &&& ukeys_unique(self.elements@)
        &&& forall|i: int|
            0 <= i < self.nodes@.len() ==> (#[trigger] self.nodes@[i]).1.id.0 == self.nodes@[i].0
                && self.nodes@[i].1.wf() && self.nodes@[i].0 < self.next_node_id
        &&& forall|i: int|
            0 <= i < self.elements@.len() ==> (#[trigger] self.elements@[i]).1.id.0
                == self.elements@[i].0 && self.elements@[i].1.wf() && self.elements@[i].0
                < self.next_element_id
    }

    /// The tree invariant: a well-formed store whose node links are
    /// consistent.
    pub closed spec fn wf(self) -> bool {
        self.store_wf() && consistent_map(self.nodes_map())
    }

    /// Whether the allocation counters can still hand out an identifier.
    pub open spec fn can_allocate(self) -> bool {
        self.next_node() < u64::MAX && self.next_element() < u64::MAX
    }

    /// Creates an empty tree.
    pub fn new() -> (r: DomTree)
        ensures
            r.wf(),
            r.can_allocate(),
            r.nodes_map() == Map::<u64, Node>::empty(),
            r.elements_map() == Map::<u64, Element>::empty(),
            r.root() is None,
            r.spec_node_count() == 0,
            r.spec_element_count() == 0,
            r.next_node() == 1,
            r.next_element() == 1,
    {
        DomTree {
            nodes: Vec::new(),
            elements: Vec::new(),
            root_id: None,
            next_node_id: 1,
            next_element_id: 1,
        }
    }

    /// The node-identifier allocation counter.
    pub closed spec fn next_node(self) -> u64 {
        self.next_node_id
    }

    /// The element-identifier allocation counter.
    pub closed spec fn next_element(self) -> u64 {
        self.next_element_id
    }

    /// Registers `node` under its own identifier, replacing any previous node
    /// with that identifier; the first node registered becomes the root.
    /// Registering a fresh, detached node keeps the tree consistent.
    pub fn add_node(&mut self, node: Node)
        requires
            old(self).store_wf(),
            node.wf(),
            node.id.0 < u64::MAX,
        ensures
            final(self).store_wf(),
            final(self).nodes_map() == old(self).nodes_map().insert(node.id.0, node),
            final(self).elements_map() == old(self).elements_map(),
            final(self).root() == (if old(self).root() is None {
                Some(node.id)
            } else {
                old(self).root()
            }),
            old(self).wf() && node.is_fresh() && !old(self).nodes_map().contains_key(node.id.0)
                ==> final(self).wf(),
            !old(self).nodes_map().contains_key(node.id.0)
                ==> final(self).spec_node_count() == old(self).spec_node_count() + 1,
            final(self).spec_element_count() == old(self).spec_element_count(),
            final(self).next_node() == (if node.id.0 >= old(self).next_node() {
                node.id.0 + 1
            } else {
                old(self).next_node() as int
            }),
            final(self).next_element() == old(self).next_element(),
    {
        let ghost pre = *old(self);
        let key = node.id.0;
        match ufind(&self.nodes, key) {
            Some(i) => {
                proof {
                    lemma_umap_update(self.nodes@, i as int, (key, node));
                }
                let slot = &mut self.nodes[i];
                *slot = (key, node);
            },
            None => {
                proof {
                    lemma_umap_dom(self.nodes@, key);
                    lemma_umap_push(self.nodes@, (key, node));
                }
                self.nodes.push((key, node));
            },
        }
        if key >= self.next_node_id {
            self.next_node_id = key + 1;
        }
        if self.root_id.is_none() {
            self.root_id = Some(NodeId(key));
            proof {
                assert(self.root_id == Some(node.id));
            }
        }
        proof {
            if pre.wf() && node.is_fresh() && !pre.nodes_map().contains_key(node.id.0) {
                lemma_add_fresh_preserves(pre.nodes_map(), self.nodes_map(), node);
            }
            if !pre.nodes_map().contains_key(key) {
                lemma_umap_dom(pre.nodes@, key);
            }
        }
    }

    /// Registers `element` under its own identifier, replacing any previous
    /// element with that identifier.
    pub fn add_element(&mut self, element: Element)
        requires
            old(self).store_wf(),
            element.wf(),
            element.id.0 < u64::MAX,
        ensures
            final(self).store_wf(),
            old(self).wf() ==> final(self).wf(),
            final(self).elements_map() == old(self).elements_map().insert(
                element.id.0,
                element,
            ),
            final(self).nodes_map() == old(self).nodes_map(),
            final(self).root() == old(self).root(),
            final(self).spec_node_count() == old(self).spec_node_count(),
            !old(self).elements_map().contains_key(element.id.0)
                ==> final(self).spec_element_count() == old(self).spec_element_count() + 1,
            final(self).next_node() == old(self).next_node(),
            final(self).next_element() == (if element.id.0 >= old(self).next_element() {
                element.id.0 + 1
            } else {
                old(self).next_element() as int
            }),
    {
        let key = element.id.0;
        match ufind(&self.elements, key) {
            Some(i) => {
                proof {
                    lemma_umap_update(self.elements@, i as int, (key, element));
                }
                let slot = &mut self.elements[i];
                *slot = (key, element);
            },
            None => {
                proof {
                    lemma_umap_dom(self.elements@, key);
                    lemma_umap_push(self.elements@, (key, element));
                }
                self.elements.push((key, element));
            },
        }
        if key >= self.next_element_id {
            self.next_element_id = key + 1;
        }
        proof {
            if !umap_of(old(self).elements@).contains_key(key) {
                lemma_umap_dom(old(self).elements@, key);
            }
        }
    }

    /// The node stored under `node_id`.
    pub fn get_node(&self, node_id: NodeId) -> (r: VeloraResult<&Node>)
        requires
            self.wf(),
        ensures
            match r {
                Ok(n) => self.nodes_map().contains_key(node_id.0)
                    && *n == self.nodes_map()[node_id.0],
                Err(e) => !self.nodes_map().contains_key(node_id.0) && e matches VeloraError::Dom(
                    DomError::NodeNotFound(_),
                ),
            },
    {
        proof {
            lemma_umap_dom(self.nodes@, node_id.0);
        }
        match ufind(&self.nodes, node_id.0) {
            Some(i) => {
                proof {
                    lemma_umap_index(self.nodes@, i as int);
                }
                Ok(&self.nodes[i].1)
            },
            None => Err(VeloraError::Dom(DomError::NodeNotFound(node_not_found_message(node_id)))),
        }
    }

    /// The element stored under `element_id`.
    pub fn get_element(&self, element_id: ElementId) -> (r: VeloraResult<&Element>)
        requires
            self.wf(),
        ensures
            match r {
                Ok(e) => self.elements_map().contains_key(element_id.0) && *e
                    == self.elements_map()[element_id.0],
                Err(e) => !self.elements_map().contains_key(element_id.0) && e
                    matches VeloraError::Dom(DomError::NodeNotFound(_)),
            },
    {
        proof {
            lemma_umap_dom(self.elements@, element_id.0);
        }
        match ufind(&self.elements, element_id.0) {
            Some(i) => {
                proof {
                    lemma_umap_index(self.elements@, i as int);
                }
                Ok(&self.elements[i].1)
            },
            None => Err(
                VeloraError::Dom(
                    DomError::NodeNotFound(element_not_found_message(element_id)),
                ),
            ),
        }
    }

    /// The root node, if a root is set and stored.
    pub fn get_root(&self) -> (r: Option<&Node>)
        requires
            self.wf(),
        ensures
            match r {
                Some(n) => self.root() is Some && self.nodes_map().contains_key((self.root()->0).0)
                    && *n == self.nodes_map()[(self.root()->0).0],
                None => self.root() is None || !self.nodes_map().contains_key((self.root()->0).0),
            },
    {
        match self.root_id {
            Some(root) => match self.get_node(root) {
                Ok(n) => Some(n),
                Err(_) => None,
            },
            None => None,
        }
    }

    /// Makes `node_id` the root; rejected when the identifier is not stored.
    pub fn set_root(&mut self, node_id: NodeId) -> (r: VeloraResult<()>)
        ensures
            old(self).nodes_map().contains_key(node_id.0) ==> r is Ok && final(self).root()
                == Some(node_id),
            !old(self).nodes_map().contains_key(node_id.0) ==> *final(self) == *old(self) && r
                matches Err(VeloraError::Dom(DomError::NodeNotFound(_))),
            final(self).nodes_map() == old(self).nodes_map(),
            final(self).elements_map() == old(self).elements_map(),
            final(self).next_node() == old(self).next_node(),
            final(self).next_element() == old(self).next_element(),
            old(self).wf() ==> final(self).wf(),
    {
        proof {
            lemma_umap_dom(self.nodes@, node_id.0);
        }
        match ufind(&self.nodes, node_id.0) {
            Some(_) => {
                self.root_id = Some(node_id);
                Ok(())
            },
            None => Err(VeloraError::Dom(DomError::NodeNotFound(node_not_found_message(node_id)))),
        }
    }

    /// Allocates an element and its wrapping node; the node identifier is
    /// returned.
    pub fn create_element(&mut self, tag_name: &str) -> (r: VeloraResult<NodeId>)
        requires
            old(self).wf(),
            old(self).can_allocate(),
        ensures
            final(self).wf(),
            r is Ok,
            final(self).next_node() == old(self).next_node() + 1,
            final(self).next_element() == old(self).next_element() + 1,
            ({
                let id = r->Ok_0;
                &&& id.0 == old(self).next_node()
                &&& !old(self).nodes_map().contains_key(id.0)
                &&& final(self).nodes_map().dom() == old(self).nodes_map().dom().insert(id.0)
                &&& final(self).spec_node_count() == old(self).spec_node_count() + 1
                &&& final(self).spec_element_count() == old(self).spec_element_count() + 1
                &&& ({
                    let n = final(self).nodes_map()[id.0];
                    &&& n.id == id
                    &&& n.node_type is Element
                    &&& n.node_name@ == tag_name@
                    &&& n.element_id == Some(ElementId(old(self).next_element()))
                    &&& n.is_fresh()
                })
                &&& final(self).elements_map().contains_key(old(self).next_element())
                &&& final(self).elements_map()[old(self).next_element()].tag_name@ == tag_name@
                &&& (forall|k: u64|
                    old(self).nodes_map().contains_key(k)
                        ==> #[trigger] final(self).nodes_map().contains_key(k)
                        && final(self).nodes_map()[k] == old(self).nodes_map()[k])
                &&& final(self).root() == (if old(self).root() is None {
                    Some(id)
                } else {
                    old(self).root()
                })
            }),
    {
        let node_id = NodeId(self.next_node_id);
        let element_id = ElementId(self.next_element_id);
        let element = Element::new(element_id, tag_name.to_owned());
        proof {
            lemma_umap_dom(self.elements@, element_id.0);
        }
        self.add_element(element);
        let mut node = Node::new_element(node_id, tag_name.to_owned());
        let set_result = node.set_element_id(element_id);
        proof {
            assert(set_result is Ok);
            lemma_umap_dom(old(self).nodes@, node_id.0);
        }
        self.add_node(node);
        proof {
            assert(self.nodes_map().dom() =~= old(self).nodes_map().dom().insert(node_id.0));
        }
        Ok(node_id)
    }

    /// Allocates a text node holding `text`.
    pub fn create_text_node(&mut self, text: &str) -> (r: VeloraResult<NodeId>)
        requires
            old(self).wf(),
            old(self).can_allocate(),
        ensures
            final(self).wf(),
            r is Ok,
            final(self).next_node() == old(self).next_node() + 1,
            final(self).next_element() == old(self).next_element(),
            ({
                let id = r->Ok_0;
                &&& id.0 == old(self).next_node()
                &&& !old(self).nodes_map().contains_key(id.0)
                &&& final(self).nodes_map().dom() == old(self).nodes_map().dom().insert(id.0)
                &&& final(self).spec_node_count() == old(self).spec_node_count() + 1
                &&& final(self).spec_element_count() == old(self).spec_element_count()
                &&& ({
                    let n = final(self).nodes_map()[id.0];
                    &&& n.id == id
                    &&& n.node_type is Text
                    &&& n.node_name@ == "#text"@
                    &&& n.node_value is Some && n.node_value->0@ == text@
                    &&& n.is_fresh()
                })
                &&& (forall|k: u64|
                    old(self).nodes_map().contains_key(k)
                        ==> #[trigger] final(self).nodes_map().contains_key(k)
                        && final(self).nodes_map()[k] == old(self).nodes_map()[k])
                &&& final(self).root() == (if old(self).root() is None {
                    Some(id)
                } else {
                    old(self).root()
                })
            }),
    {
        let node_id = NodeId(self.next_node_id);
        let node = Node::new_text(node_id, text.to_owned());
        proof {
            lemma_umap_dom(old(self).nodes@, node_id.0);
        }
        self.add_node(node);
        proof {
            assert(self.nodes_map().dom() =~= old(self).nodes_map().dom().insert(node_id.0));
        }
        Ok(node_id)
    }

    /// Appends `child_id` at the end of `parent_id`'s child sequence: a
    /// child listed under a previous parent is spliced out of it first (move
    /// semantics), the child's parent reference is set, and the sibling chain
    /// is re-linked so the previously-last child and the new child point at
    /// each other.
    ///
    /// Fails with a missing-node error exactly when either identifier is
    /// absent; on failure the tree is unchanged.
    #[verifier::rlimit(100)]
    #[verifier::spinoff_prover]
    pub fn append_child(&mut self, parent_id: NodeId, child_id: NodeId) -> (r: VeloraResult<()>)
        requires
            old(self).wf(),
        ensures
            final(self).wf(),
            final(self).elements_map() == old(self).elements_map(),
            final(self).root() == old(self).root(),
            final(self).next_node() == old(self).next_node(),
            final(self).next_element() == old(self).next_element(),
            final(self).spec_node_count() == old(self).spec_node_count(),
            final(self).spec_element_count() == old(self).spec_element_count(),
            ({
                let m = old(self).nodes_map();
                let ok_cond = m.contains_key(parent_id.0) && m.contains_key(child_id.0);
                &&& (r is Ok <==> ok_cond)
                &&& (!ok_cond ==> *final(self) == *old(self) && (r matches Err(
                    VeloraError::Dom(DomError::NodeNotFound(_)),
                )))
                &&& (ok_cond ==> final(self).nodes_map().dom() == m.dom() && reparent_shape(
                    m,
                    final(self).nodes_map(),
                    parent_id.0,
                    child_id.0,
                ))
            }),
    {
        let ghost m0 = self.nodes_map();
        proof {
            lemma_umap_dom(self.nodes@, parent_id.0);
        }
        if ufind(&self.nodes, parent_id.0).is_none() {
            return Err(
                VeloraError::Dom(DomError::NodeNotFound(node_not_found_message(parent_id))),
            );
        }
        proof {
            lemma_umap_dom(self.nodes@, child_id.0);
        }
        let ci0 = match ufind(&self.nodes, child_id.0) {
            Some(i) => i,
            None => {
                return Err(
                    VeloraError::Dom(DomError::NodeNotFound(node_not_found_message(child_id))),
                );
            },
        };
        proof {
            lemma_umap_index(self.nodes@, ci0 as int);
        }
        // splice the child out of its previous parent, if it is listed there
        let child_parent = self.nodes[ci0].1.parent_id;
        let ghost removed: bool = false;
        let ghost rem_pos: int = 0;
        match child_parent {
            Some(q) => {
                let res = self.remove_child(q, child_id);
                proof {
                    if res is Ok {
                        removed = true;
                        rem_pos = choose|pos: int|
                            {
                                &&& 0 <= pos < m0[q.0].child_ids@.len()
                                &&& m0[q.0].child_ids@[pos] == child_id
                                &&& (forall|j: int|
                                    0 <= j < pos ==> m0[q.0].child_ids@[j] != child_id)
                                &&& remove_shape(
                                    m0,
                                    self.nodes_map(),
                                    q.0,
                                    child_id.0,
                                    pos,
                                )
                            };
                    }
                }
            },
            None => {},
        }
        let ghost m1 = self.nodes_map();
        proof {
            // after the splice (or where none applies) the child is listed
            // nowhere
            assert(m1.contains_key(child_id.0) && m1.contains_key(parent_id.0));
            match child_parent {
                Some(q) => {
                    if removed {
                        assert(m1[child_id.0].parent_id is None);
                        lemma_detached_not_listed(m1, child_id.0);
                    } else {
                        assert(m1 == m0);
                        assert(unattached_in(m0, child_id.0));
                        lemma_unattached_not_listed(m1, child_id.0);
                    }
                },
                None => {
                    assert(m1 == m0);
                    lemma_detached_not_listed(m1, child_id.0);
                },
            }
            lemma_umap_dom(self.nodes@, parent_id.0);
            lemma_umap_dom(self.nodes@, child_id.0);
        }
        self.attach_unlisted(parent_id, child_id);
        proof {
            let m3 = self.nodes_map();
            assert(m3.dom() =~= m0.dom());
            // assemble the move shape: the splice (when one happened)
            // followed by the append
            if removed {
                let q = (m0[child_id.0].parent_id->0).0;
                assert(!unattached_in(m0, child_id.0));
                assert({
                    &&& 0 <= rem_pos < m0[q].child_ids@.len()
                    &&& m0[q].child_ids@[rem_pos] == child_id
                    &&& (forall|j: int| 0 <= j < rem_pos ==> m0[q].child_ids@[j] != child_id)
                    &&& m1.dom() == m0.dom()
                    &&& remove_shape(m0, m1, q, child_id.0, rem_pos)
                    &&& append_shape(m1, m3, parent_id.0, child_id.0)
                });
                assert(reparent_shape(m0, m3, parent_id.0, child_id.0));
            } else {
                assert(m1 == m0);
                assert(unattached_in(m0, child_id.0));
                assert(reparent_shape(m0, m3, parent_id.0, child_id.0));
            }
        }
        Ok(())
    }

    /// Attaches a child that is listed nowhere at the end of the parent's
    /// child sequence.
    #[verifier::rlimit(100)]
    #[verifier::spinoff_prover]
    fn attach_unlisted(&mut self, parent_id: NodeId, child_id: NodeId)
        requires
            old(self).wf(),
            old(self).nodes_map().contains_key(parent_id.0),
            old(self).nodes_map().contains_key(child_id.0),
            child_unlisted(old(self).nodes_map(), child_id.0),
        ensures
            final(self).wf(),
            final(self).elements_map() == old(self).elements_map(),
            final(self).root() == old(self).root(),
            final(self).next_node() == old(self).next_node(),
            final(self).next_element() == old(self).next_element(),
            final(self).spec_node_count() == old(self).spec_node_count(),
            final(self).spec_element_count() == old(self).spec_element_count(),
            final(self).nodes_map().dom() == old(self).nodes_map().dom(),
            append_shape(old(self).nodes_map(), final(self).nodes_map(), parent_id.0, child_id.0),
    {
        let ghost m1 = self.nodes_map();
        proof {
            lemma_umap_dom(self.nodes@, parent_id.0);
            lemma_umap_dom(self.nodes@, child_id.0);
        }
        let pi = match ufind(&self.nodes, parent_id.0) {
            Some(i) => i,
            None => {
                proof {
                    assert(false);
                }
                return ;
            },
        };
        let ci = match ufind(&self.nodes, child_id.0) {
            Some(i) => i,
            None => {
                proof {
                    assert(false);
                }
                return ;
            },
        };
        proof {
            lemma_umap_index(self.nodes@, pi as int);
            lemma_umap_index(self.nodes@, ci as int);
        }
        let plen = self.nodes[pi].1.child_ids.len();
        let last: Option<NodeId> = if plen > 0 {
            Some(self.nodes[pi].1.child_ids[plen - 1])
        } else {
            None
        };
        let ghost s0 = self.nodes@;
        {
            let entry = &mut self.nodes[pi];
            entry.1.child_ids.push(child_id);
        }
        proof {
            lemma_umap_update(s0, pi as int, self.nodes@[pi as int]);
        }
        let ghost s1 = self.nodes@;
        {
            let entry = &mut self.nodes[ci];
            entry.1.parent_id = Some(parent_id);
            entry.1.previous_sibling_id = last;
            entry.1.next_sibling_id = None;
        }
        proof {
            lemma_umap_update(s1, ci as int, self.nodes@[ci as int]);
        }
        match last {
            Some(last_id) => {
                proof {
                    // the previously-last child is stored: its key survives
                    // the two value updates
                    assert(m1[parent_id.0].child_ids@[plen - 1] == last_id);
                    assert(m1.contains_key(last_id.0));
                    assert(last_id.0 != child_id.0);
                    assert(self.nodes_map().contains_key(last_id.0));
                    lemma_umap_dom(self.nodes@, last_id.0);
                }
                match ufind(&self.nodes, last_id.0) {
                    Some(li) => {
                        proof {
                            lemma_umap_index(self.nodes@, li as int);
                        }
                        let ghost s2 = self.nodes@;
                        {
                            let entry = &mut self.nodes[li];
                            entry.1.next_sibling_id = Some(child_id);
                        }
                        proof {
                            lemma_umap_update(s2, li as int, self.nodes@[li as int]);
                        }
                    },
                    None => {
                        proof {
                            assert(false);
                        }
                        return ;
                    },
                }
            },
            None => {},
        }
        proof {
            let m3 = self.nodes_map();
            assert(m3.dom() =~= m1.dom());
            assert(append_shape(m1, m3, parent_id.0, child_id.0));
            lemma_append_preserves(m1, m3, parent_id.0, child_id.0);
        }
    }

    /// Splices `child_id` out of `parent_id`'s child sequence, clears the
    /// child's parent and sibling references, and reconnects the child's
    /// former neighbours to each other.
    ///
    /// Fails with a missing-node error when the child or parent is absent or
    /// the child is not listed under the parent; on failure the tree is
    /// unchanged.
    #[verifier::rlimit(100)]
    #[verifier::spinoff_prover]
    pub fn remove_child(&mut self, parent_id: NodeId, child_id: NodeId) -> (r: VeloraResult<()>)
        requires
            old(self).wf(),
        ensures
            final(self).wf(),
            final(self).elements_map() == old(self).elements_map(),
            final(self).root() == old(self).root(),
            final(self).next_node() == old(self).next_node(),
            final(self).next_element() == old(self).next_element(),
            final(self).spec_node_count() == old(self).spec_node_count(),
            final(self).spec_element_count() == old(self).spec_element_count(),
            ({
                let m = old(self).nodes_map();
                let listed = m.contains_key(parent_id.0) && m.contains_key(child_id.0)
                    && m[parent_id.0].child_ids@.contains(child_id);
                &&& (r is Ok <==> listed)
                &&& (!listed ==> *final(self) == *old(self) && r matches Err(
                    VeloraError::Dom(DomError::NodeNotFound(_)),
                ))
                &&& (listed ==> final(self).nodes_map().dom() == m.dom() && exists|pos: int|
                    {
                        &&& 0 <= pos < m[parent_id.0].child_ids@.len()
                        &&& m[parent_id.0].child_ids@[pos] == child_id
                        &&& (forall|j: int|
                            0 <= j < pos ==> m[parent_id.0].child_ids@[j] != child_id)
                        &&& remove_shape(m, final(self).nodes_map(), parent_id.0, child_id.0, pos)
                    })
            }),
    {
        let ghost m0 = self.nodes_map();
        proof {
            lemma_umap_dom(self.nodes@, child_id.0);
        }
        let ci = match ufind(&self.nodes, child_id.0) {
            Some(i) => i,
            None => {
                return Err(
                    VeloraError::Dom(DomError::NodeNotFound(node_not_found_message(child_id))),
                );
            },
        };
        proof {
            lemma_umap_dom(self.nodes@, parent_id.0);
        }
        let pi = match ufind(&self.nodes, parent_id.0) {
            Some(i) => i,
            None => {
                return Err(
                    VeloraError::Dom(DomError::NodeNotFound(node_not_found_message(parent_id))),
                );
            },
        };
        proof {
            lemma_umap_index(self.nodes@, pi as int);
            lemma_umap_index(self.nodes@, ci as int);
        }
        let pos = match self.nodes[pi].1.find_child_index(child_id) {
            Some(k) => k,
            None => {
                return Err(
                    VeloraError::Dom(
                        DomError::NodeNotFound(child_not_listed_message(child_id, parent_id)),
                    ),
                );
            },
        };
        let ghost plist = m0[parent_id.0].child_ids@;
        proof {
            lemma_list_nodup(m0, parent_id.0);
        }
        let plen = self.nodes[pi].1.child_ids.len();
        let prev: Option<NodeId> = if pos > 0 {
            Some(self.nodes[pi].1.child_ids[pos - 1])
        } else {
            None
        };
        let next: Option<NodeId> = if pos < plen - 1 {
            Some(self.nodes[pi].1.child_ids[pos + 1])
        } else {
            None
        };
        // splice the child out of the parent's sequence
        let ghost s0 = self.nodes@;
        {
            let entry = &mut self.nodes[pi];
            entry.1.child_ids.remove(pos);
        }
        proof {
            lemma_umap_update(s0, pi as int, self.nodes@[pi as int]);
        }
        // clear the child's own references
        let ghost s1 = self.nodes@;
        {
            let entry = &mut self.nodes[ci];
            entry.1.parent_id = None;
            entry.1.previous_sibling_id = None;
            entry.1.next_sibling_id = None;
        }
        proof {
            lemma_umap_update(s1, ci as int, self.nodes@[ci as int]);
        }
        // reconnect the former neighbours
        match prev {
            Some(prev_id) => {
                proof {
                    assert(plist[pos - 1] == prev_id);
                    assert(m0.contains_key(prev_id.0));
                    assert(prev_id.0 != child_id.0);
                    assert(self.nodes_map().contains_key(prev_id.0));
                    lemma_umap_dom(self.nodes@, prev_id.0);
                }
                match ufind(&self.nodes, prev_id.0) {
                    Some(vi) => {
                        proof {
                            lemma_umap_index(self.nodes@, vi as int);
                        }
                        let ghost s2 = self.nodes@;
                        {
                            let entry = &mut self.nodes[vi];
                            entry.1.next_sibling_id = next;
                        }
                        proof {
                            lemma_umap_update(s2, vi as int, self.nodes@[vi as int]);
                        }
                    },
                    None => {
                        proof {
                            assert(false);
                        }
                        return Err(
                            VeloraError::Dom(
                                DomError::TreeCorruption("sibling chain mismatch".to_owned()),
                            ),
                        );
                    },
                }
            },
            None => {},
        }
        match next {
            Some(next_id) => {
                proof {
                    assert(plist[pos + 1] == next_id);
                    assert(m0.contains_key(next_id.0));
                    assert(next_id.0 != child_id.0);
                    assert(self.nodes_map().contains_key(next_id.0));
                    lemma_umap_dom(self.nodes@, next_id.0);
                }
                match ufind(&self.nodes, next_id.0) {
                    Some(ni) => {
                        proof {
                            lemma_umap_index(self.nodes@, ni as int);
                        }
                        let ghost s3 = self.nodes@;
                        {
                            let entry = &mut self.nodes[ni];
                            entry.1.previous_sibling_id = prev;
                        }
                        proof {
                            lemma_umap_update(s3, ni as int, self.nodes@[ni as int]);
                        }
                    },
                    None => {
                        proof {
                            assert(false);
                        }
                        return Err(
                            VeloraError::Dom(
                                DomError::TreeCorruption("sibling chain mismatch".to_owned()),
                            ),
                        );
                    },
                }
            },
            None => {},
        }
        proof {
            let m4 = self.nodes_map();
            assert(m4.dom() =~= m0.dom());
            assert(remove_shape(m0, m4, parent_id.0, child_id.0, pos as int));
            lemma_remove_preserves(m0, m4, parent_id.0, child_id.0, pos as int);
            assert(exists|p: int|
                {
                    &&& 0 <= p < m0[parent_id.0].child_ids@.len()
                    &&& m0[parent_id.0].child_ids@[p] == child_id
                    &&& (forall|j: int| 0 <= j < p ==> m0[parent_id.0].child_ids@[j] != child_id)
                    &&& remove_shape(m0, m4, parent_id.0, child_id.0, p)
                }) by {
                let wpos = pos as int;
                assert({
                    &&& 0 <= wpos < m0[parent_id.0].child_ids@.len()
                    &&& m0[parent_id.0].child_ids@[wpos] == child_id
                    &&& (forall|j: int| 0 <= j < wpos ==> m0[parent_id.0].child_ids@[j] != child_id)
                    &&& remove_shape(m0, m4, parent_id.0, child_id.0, wpos)
                });
            }
        }
        Ok(())
    }

    /// Allocates a document node.
    pub fn create_document_node(&mut self) -> (r: VeloraResult<NodeId>)
        requires
            old(self).wf(),
            old(self).can_allocate(),
        ensures
            final(self).wf(),
            r is Ok,
            final(self).next_node() == old(self).next_node() + 1,
            final(self).next_element() == old(self).next_element(),
            ({
                let id = r->Ok_0;
                &&& id.0 == old(self).next_node()
                &&& !old(self).nodes_map().contains_key(id.0)
                &&& final(self).nodes_map().dom() == old(self).nodes_map().dom().insert(id.0)
                &&& final(self).spec_node_count() == old(self).spec_node_count() + 1
                &&& final(self).spec_element_count() == old(self).spec_element_count()
                &&& ({
                    let n = final(self).nodes_map()[id.0];
                    &&& n.id == id
                    &&& n.node_type is Document
                    &&& n.node_name@ == "#document"@
                    &&& n.is_fresh()
                })
                &&& (forall|k: u64|
                    old(self).nodes_map().contains_key(k)
                        ==> #[trigger] final(self).nodes_map().contains_key(k)
                        && final(self).nodes_map()[k] == old(self).nodes_map()[k])
                &&& final(self).root() == (if old(self).root() is None {
                    Some(id)
                } else {
                    old(self).root()
                })
            }),
    {
        let node_id = NodeId(self.next_node_id);
        let node = Node::new_document(node_id);
        proof {
            lemma_umap_dom(old(self).nodes@, node_id.0);
        }
        self.add_node(node);
        proof {
            assert(self.nodes_map().dom() =~= old(self).nodes_map().dom().insert(node_id.0));
        }
        Ok(node_id)
    }

    /// The first stored node (in insertion order) named `name`: the tag name
    /// for elements, the sentinel name otherwise.
    pub fn find_node_by_name(&self, name: &str) -> (r: Option<&Node>)
        ensures
            match r {
                Some(n) => exists|i: int|
                    {
                        &&& 0 <= i < self.node_seq().len()
                        &&& *n == (#[trigger] self.node_seq()[i]).1
                        &&& n.node_name@ == name@
                        &&& forall|j: int|
                            0 <= j < i ==> (#[trigger] self.node_seq()[j]).1.node_name@ != name@
                    },
                None => forall|i: int|
                    0 <= i < self.node_seq().len() ==> (#[trigger] self.node_seq()[i]).1.node_name@
                        != name@,
            },
    {
        let n = self.nodes.len();
        let mut i: usize = 0;
        while i < n
            invariant
                n == self.nodes@.len(),
                i <= n,
                forall|j: int| 0 <= j < i ==> (#[trigger] self.nodes@[j]).1.node_name@ != name@,
            decreases n - i,
        {
            if crate::strings::str_eq(self.nodes[i].1.node_name.as_str(), name) {
                proof {
                    assert(self.nodes@[i as int].1.node_name@ == name@);
                }
                return Some(&self.nodes[i].1);
            }
            i = i + 1;
        }
        None
    }

    /// The stored node entries, in insertion order (ghost).
    pub closed spec fn node_seq(self) -> Seq<(u64, Node)> {
        self.nodes@
    }

    /// The stored element entries, in insertion order (ghost).
    pub closed spec fn element_seq(self) -> Seq<(u64, Element)> {
        self.elements@
    }

    /// All stored nodes named `name`, in insertion order: exactly those, no
    /// others and no duplicates of the filtered sequence.
    pub fn find_nodes_by_name(&self, name: &str) -> (r: Vec<&Node>)
        ensures
            r@.len() == nodes_named(self.node_seq(), name@).len(),
            forall|k: int|
                0 <= k < r@.len() ==> *(#[trigger] r@[k]) == nodes_named(
                    self.node_seq(),
                    name@,
                )[k],
    {
        let n = self.nodes.len();
        let mut out: Vec<&Node> = Vec::new();
        let mut i: usize = 0;
        while i < n
            invariant
                n == self.nodes@.len(),
                i <= n,
                out@.len() == nodes_named(self.nodes@.subrange(0, i as int), name@).len(),
                forall|k: int|
                    0 <= k < out@.len() ==> *(#[trigger] out@[k]) == nodes_named(
                        self.nodes@.subrange(0, i as int),
                        name@,
                    )[k],
            decreases n - i,
        {
            proof {
                assert(self.nodes@.subrange(0, i + 1).drop_last() =~= self.nodes@.subrange(
                    0,
                    i as int,
                ));
                assert(self.nodes@.subrange(0, i + 1).last() == self.nodes@[i as int]);
            }
            if crate::strings::str_eq(self.nodes[i].1.node_name.as_str(), name) {
                out.push(&self.nodes[i].1);
            }
            i = i + 1;
        }
        proof {
            assert(self.nodes@.subrange(0, n as int) =~= self.nodes@);
        }
        out
    }

    /// Whether the node's element record carries `id` as its `id` attribute.
    pub open spec fn node_has_id_attr(self, n: Node, id: Seq<char>) -> bool {
        n.element_id is Some && self.elements_map().contains_key((n.element_id->0).0)
            && self.elements_map()[(n.element_id->0).0].element_id is Some && (self.elements_map()[
            (n.element_id->0).0].element_id->0)@ == id
    }

    /// The first stored node whose element carries `id` as its `id`
    /// attribute.
    pub fn find_element_by_id(&self, id: &str) -> (r: Option<&Node>)
        requires
            self.wf(),
        ensures
            match r {
                Some(n) => self.node_has_id_attr(*n, id@),
                None => forall|i: int|
                    0 <= i < self.node_seq().len() ==> !self.node_has_id_attr(
                        (#[trigger] self.node_seq()[i]).1,
                        id@,
                    ),
            },
    {
        let n = self.nodes.len();
        let mut i: usize = 0;
        while i < n
            invariant
                self.wf(),
                n == self.nodes@.len(),
                i <= n,
                forall|j: int|
                    0 <= j < i ==> !self.node_has_id_attr((#[trigger] self.nodes@[j]).1, id@),
            decreases n - i,
        {
            let node = &self.nodes[i].1;
            match node.element_id {
                Some(eid) => match self.get_element(eid) {
                    Ok(element) => match element.get_id() {
                        Some(value) => {
                            if crate::strings::str_eq(value, id) {
                                return Some(&self.nodes[i].1);
                            }
                        },
                        None => {},
                    },
                    Err(_) => {},
                },
                None => {},
            }
            i = i + 1;
        }
        None
    }

    /// All stored nodes whose element record carries class `class_name`, in
    /// insertion order: exactly those, no others and no duplicates of the
    /// filtered sequence.
    pub fn find_elements_by_class(&self, class_name: &str) -> (r: Vec<&Node>)
        requires
            self.wf(),
        ensures
            r@.len() == nodes_with_class(self.node_seq(), self.elements_map(), class_name@).len(),
            forall|k: int|
                0 <= k < r@.len() ==> *(#[trigger] r@[k]) == nodes_with_class(
                    self.node_seq(),
                    self.elements_map(),
                    class_name@,
                )[k],
    {
        let n = self.nodes.len();
        let mut out: Vec<&Node> = Vec::new();
        let mut i: usize = 0;
        while i < n
            invariant
                self.wf(),
                n == self.nodes@.len(),
                i <= n,
                out@.len() == nodes_with_class(
                    self.nodes@.subrange(0, i as int),
                    self.elements_map(),
                    class_name@,
                ).len(),
                forall|k: int|
                    0 <= k < out@.len() ==> *(#[trigger] out@[k]) == nodes_with_class(
                        self.nodes@.subrange(0, i as int),
                        self.elements_map(),
                        class_name@,
                    )[k],
            decreases n - i,
        {
            proof {
                assert(self.nodes@.subrange(0, i + 1).drop_last() =~= self.nodes@.subrange(
                    0,
                    i as int,
                ));
                assert(self.nodes@.subrange(0, i + 1).last() == self.nodes@[i as int]);
            }
            let node = &self.nodes[i].1;
            match node.element_id {
                Some(eid) => match self.get_element(eid) {
                    Ok(element) => {
                        if element.has_class(class_name) {
                            out.push(&self.nodes[i].1);
                        }
                    },
                    Err(_) => {},
                },
                None => {},
            }
            i = i + 1;
        }
        proof {
            assert(self.nodes@.subrange(0, n as int) =~= self.nodes@);
        }
        out
    }

    /// All stored nodes, in insertion order.
    pub fn get_all_nodes(&self) -> (r: Vec<&Node>)
        ensures
            r@.len() == self.node_seq().len(),
            forall|k: int| 0 <= k < r@.len() ==> *(#[trigger] r@[k]) == self.node_seq()[k].1,
    {
        let n = self.nodes.len();
        let mut out: Vec<&Node> = Vec::new();
        let mut i: usize = 0;
        while i < n
            invariant
                n == self.nodes@.len(),
                i <= n,
                out@.len() == i,
                forall|k: int| 0 <= k < i ==> *(#[trigger] out@[k]) == self.nodes@[k].1,
            decreases n - i,
        {
            out.push(&self.nodes[i].1);
            i = i + 1;
        }
        out
    }

    /// All stored elements, in insertion order.
    pub fn get_all_elements(&self) -> (r: Vec<&Element>)
        ensures
            r@.len() == self.element_seq().len(),
            forall|k: int| 0 <= k < r@.len() ==> *(#[trigger] r@[k]) == self.element_seq()[k].1,
    {
        let n = self.elements.len();
        let mut out: Vec<&Element> = Vec::new();
        let mut i: usize = 0;
        while i < n
            invariant
                n == self.elements@.len(),
                i <= n,
                out@.len() == i,
                forall|k: int| 0 <= k < i ==> *(#[trigger] out@[k]) == self.elements@[k].1,
            decreases n - i,
        {
            out.push(&self.elements[i].1);
            i = i + 1;
        }
        out
    }

    /// Walks the tree depth first from the root, visiting each reachable node
    /// once, and returns the identifiers in visit order: the root first, each
    /// node after some earlier-visited node that lists it, and every
    /// identifier reachable from a stored root visited exactly once.
    #[verifier::rlimit(100)]
    #[verifier::spinoff_prover]
    pub fn traverse_dfs(&self) -> (r: Vec<NodeId>)
        requires
            self.wf(),
        ensures
            forall|i: int, j: int| 0 <= i < j < r@.len() ==> r@[i] != r@[j],
            forall|i: int|
                0 <= i < r@.len() ==> self.nodes_map().contains_key((#[trigger] r@[i]).0),
            self.root() is Some && self.nodes_map().contains_key((self.root()->0).0) ==> r@.len()
                >= 1 && r@[0] == self.root()->0,
            self.root() is None ==> r@.len() == 0,
            self.root() is Some ==> forall|i: int|
                0 <= i < r@.len() ==> node_reachable(
                    self.nodes_map(),
                    (self.root()->0).0,
                    (#[trigger] r@[i]).0,
                ),
            self.root() is Some && self.nodes_map().contains_key((self.root()->0).0) ==> forall|
                id: u64,
            |
                #[trigger] node_reachable(self.nodes_map(), (self.root()->0).0, id)
                    ==> r@.contains(NodeId(id)),
    {
        let mut visited: Vec<NodeId> = Vec::new();
        let root = match self.root_id {
            Some(root) => root,
            None => {
                return visited;
            },
        };
        proof {
            lemma_umap_dom(self.nodes@, root.0);
        }
        if ufind(&self.nodes, root.0).is_none() {
            return visited;
        }
        let ghost store = self.nodes_map();
        let mut stack: Vec<NodeId> = Vec::new();
        stack.push(root);
        proof {
            lemma_node_reachable_root(store, root.0);
        }
        while stack.len() > 0
            invariant
                self.wf(),
                store == self.nodes_map(),
                forall|i: int, j: int| 0 <= i < j < visited@.len() ==> visited@[i] != visited@[j],
                forall|i: int|
                    0 <= i < visited@.len() ==> store.contains_key((#[trigger] visited@[i]).0),
                forall|i: int|
                    0 <= i < stack@.len() ==> store.contains_key((#[trigger] stack@[i]).0),
                forall|i: int|
                    0 <= i < visited@.len() ==> node_reachable(
                        store,
                        root.0,
                        (#[trigger] visited@[i]).0,
                    ),
                forall|i: int|
                    0 <= i < stack@.len() ==> node_reachable(
                        store,
                        root.0,
                        (#[trigger] stack@[i]).0,
                    ),
                covered(store, visited@, stack@),
                visited@.len() > 0 ==> visited@[0] == root,
                visited@.len() == 0 ==> stack@.len() > 0 && forall|i: int|
                    0 <= i < stack@.len() ==> (#[trigger] stack@[i]) == root,
                visited@.len() <= self.spec_node_count(),
            decreases self.spec_node_count() - visited@.len(), stack@.len(),
        {
            let ghost pre_stack = stack@;
            let id = match stack.pop() {
                Some(id) => id,
                None => {
                    proof {
                        assert(false);
                    }
                    return visited;
                },
            };
            proof {
                assert(pre_stack[pre_stack.len() - 1] == id);
                assert(pre_stack.last() == id);
            }
            let mut seen = false;
            let vn = visited.len();
            let mut vi: usize = 0;
            while vi < vn
                invariant
                    vn == visited@.len(),
                    vi <= vn,
                    seen <==> exists|j: int| 0 <= j < vi && visited@[j] == id,
                decreases vn - vi,
            {
                if visited[vi] == id {
                    seen = true;
                    proof {
                        assert(visited@[vi as int] == id);
                    }
                }
                vi = vi + 1;
            }
            if seen {
                proof {
                    assert(visited@.contains(id)) by {
                        let j = choose|j: int| 0 <= j < vn && visited@[j] == id;
                        assert(visited@[j] == id);
                    }
                    lemma_cover_pop(store, visited@, pre_stack);
                }
                continue ;
            }
            let node = match self.get_node(id) {
                Ok(node) => node,
                Err(_) => {
                    proof {
                        assert(false);
                    }
                    return visited;
                },
            };
            let ghost pre_visited = visited@;
            visited.push(id);
            proof {
                lemma_visited_len_bound(visited@, *self);
                assert(visited@ == pre_visited.push(id));
                lemma_cover_visit(store, pre_visited, pre_stack, node.child_ids@.len() as int);
                assert(visited@[visited@.len() - 1] == id);
                assert(visited@.contains(id));
            }
            // push the children in reverse so the leftmost is visited first
            let mut k = node.child_ids.len();
            while k > 0
                invariant
                    k <= node.child_ids@.len(),
                    self.wf(),
                    store == self.nodes_map(),
                    *node == store[id.0],
                    store.contains_key(id.0),
                    node_reachable(store, root.0, id.0),
                    visited@.len() >= 1,
                    visited@[visited@.len() - 1] == id,
                    visited@.last() == id,
                    forall|i: int|
                        0 <= i < stack@.len() ==> store.contains_key((#[trigger] stack@[i]).0),
                    forall|i: int|
                        0 <= i < stack@.len() ==> node_reachable(
                            store,
                            root.0,
                            (#[trigger] stack@[i]).0,
                        ),
                    covered_except(store, visited@, stack@, k as int),
                decreases k,
            {
                k = k - 1;
                let ghost pre_push = stack@;
                let child = node.child_ids[k];
                proof {
                    assert(links_ok(store, store[id.0]));
                    assert(store.contains_key(store[id.0].child_ids@[k as int].0));
                    assert(store[id.0].child_ids@.contains(child)) by {
                        assert(store[id.0].child_ids@[k as int] == child);
                    }
                    lemma_node_reachable_step(store, root.0, id.0, child.0);
                    assert(store[(visited@.last()).0].child_ids@[k as int] == child);
                    lemma_cover_push(store, visited@, pre_push, k as int);
                }
                stack.push(child);
            }
        }
        proof {
            assert(visited@.len() >= 1 && visited@[0] == root);
            assert(visited@.contains(NodeId(root.0))) by {
                assert(visited@[0] == NodeId(root.0));
            }
            assert forall|j2: int, k2: int|
                0 <= j2 < visited@.len() && store.contains_key((#[trigger] visited@[j2]).0) && 0
                    <= k2 < store[(visited@[j2]).0].child_ids@.len() implies visited@.contains(
                #[trigger] store[(visited@[j2]).0].child_ids@[k2],
            ) by {
                let c = store[(visited@[j2]).0].child_ids@[k2];
                if !visited@.contains(c) {
                    assert(pending_has(stack@, c.0));
                }
            }
            assert forall|id2: u64| #[trigger]
                node_reachable(store, root.0, id2) implies visited@.contains(NodeId(id2)) by {
                let path = choose|path: Seq<u64>| #[trigger]
                    node_child_path(store, path, root.0) && path.last() == id2;
                lemma_node_reachable_visited(store, visited@, root.0, path);
            }
        }
        visited
    }

    /// Number of nodes in the tree.
    pub fn node_count(&self) -> (r: usize)
        ensures
            r == self.spec_node_count(),
    {
        self.nodes.len()
    }

    /// Number of elements in the tree.
    pub fn element_count(&self) -> (r: usize)
        ensures
            r == self.spec_element_count(),
    {
        self.elements.len()
    }

    /// Whether the tree holds no nodes.
    pub fn is_empty(&self) -> (r: bool)
        ensures
            r == (self.spec_node_count() == 0),
    {
        self.nodes.is_empty()
    }
}

/// The message of a missing-node error.
fn node_not_found_message(node_id: NodeId) -> (r: String)
{
    let mut m = "node ".to_owned();
    m.append(u64_to_string(node_id.0).as_str());
    m.append(" not found");
    m
}

/// The message of a child-not-listed error.
fn child_not_listed_message(child_id: NodeId, parent_id: NodeId) -> (r: String)
{
    let mut m = "child ".to_owned();
    m.append(u64_to_string(child_id.0).as_str());
    m.append(" not found under parent ");
    m.append(u64_to_string(parent_id.0).as_str());
    m
}

/// The message of a missing-element error.
fn element_not_found_message(element_id: ElementId) -> (r: String)
{
    let mut m = "element ".to_owned();
    m.append(u64_to_string(element_id.0).as_str());
    m.append(" not found");
    m
}

/// Adding a fresh, detached node (whose identifier is new) to a consistent
/// map keeps it consistent.
proof fn lemma_add_fresh_preserves(m: Map<u64, Node>, m2: Map<u64, Node>, node: Node)
    requires
        consistent_map(m),
        node.is_fresh(),
        node.id.0 < u64::MAX,
        !m.contains_key(node.id.0),
        m2 == m.insert(node.id.0, node),
    ensures
        consistent_map(m2),
{
    assert forall|id: u64| #[trigger] m2.contains_key(id) implies m2[id].id.0 == id && links_ok(
        m2,
        m2[id],
    ) by {
        if id == node.id.0 {
            assert(m2[id] == node);
            assert(node.child_ids@.len() == 0);
        } else {
            assert(m.contains_key(id));
            assert(m2[id] == m[id]);
            assert(links_ok(m, m[id]));
            assert forall|i: int| 0 <= i < m2[id].child_ids@.len() implies {
                let c = (#[trigger] m2[id].child_ids@[i]).0;
                &&& m2.contains_key(c)
                &&& m2[c].parent_id == Some(m2[id].id)
                &&& m2[c].previous_sibling_id == (if i == 0 {
                    None::<NodeId>
                } else {
                    Some(m2[id].child_ids@[i - 1])
                })
                &&& m2[c].next_sibling_id == (if i == m2[id].child_ids@.len() - 1 {
                    None::<NodeId>
                } else {
                    Some(m2[id].child_ids@[i + 1])
                })
            } by {
                let c = m2[id].child_ids@[i].0;
                assert(m.contains_key(c));
                assert(c != node.id.0);
                assert(m2[c] == m[c]);
            }
        }
    }
}


/// How appending `c_id` under `p_id` reshapes the node map: the parent's
/// child sequence gains the child at its end, the child points back to the
/// parent and into the sibling chain, the previously-last child gains a
/// forward link, and everything else is untouched.
pub open spec fn append_shape(m: Map<u64, Node>, m2: Map<u64, Node>, p_id: u64, c_id: u64) -> bool {
    forall|id: u64| #[trigger]
        m.contains_key(id) ==> {
            let old_n = m[id];
            let new_n = m2[id];
            let plist = m[p_id].child_ids@;
            &&& new_n.id == old_n.id
            &&& new_n.node_type == old_n.node_type
            &&& new_n.node_name@ == old_n.node_name@
            &&& new_n.node_value == old_n.node_value
            &&& new_n.element_id == old_n.element_id
            &&& new_n.data@ == old_n.data@
            &&& new_n.child_ids@ == (if id == p_id {
                plist.push(NodeId(c_id))
            } else {
                old_n.child_ids@
            })
            &&& new_n.parent_id == (if id == c_id {
                Some(NodeId(p_id))
            } else {
                old_n.parent_id
            })
            &&& new_n.previous_sibling_id == (if id == c_id {
                if plist.len() == 0 {
                    None::<NodeId>
                } else {
                    Some(plist.last())
                }
            } else {
                old_n.previous_sibling_id
            })
            &&& new_n.next_sibling_id == (if id == c_id {
                None::<NodeId>
            } else if plist.len() > 0 && id == plist.last().0 {
                Some(NodeId(c_id))
            } else {
                old_n.next_sibling_id
            })
        }
}

/// How splicing the child at position `pos` out from under `p_id` reshapes
/// the node map: the child leaves the parent's sequence, its own references
/// are cleared, its former neighbours are joined to each other, and
/// everything else is untouched.
pub open spec fn remove_shape(
    m: Map<u64, Node>,
    m2: Map<u64, Node>,
    p_id: u64,
    c_id: u64,
    pos: int,
) -> bool {
    forall|id: u64| #[trigger]
        m.contains_key(id) ==> {
            let old_n = m[id];
            let new_n = m2[id];
            let plist = m[p_id].child_ids@;
            let prev_opt = if pos == 0 {
                None::<NodeId>
            } else {
                Some(plist[pos - 1])
            };
            let next_opt = if pos == plist.len() - 1 {
                None::<NodeId>
            } else {
                Some(plist[pos + 1])
            };
            &&& new_n.id == old_n.id
            &&& new_n.node_type == old_n.node_type
            &&& new_n.node_name@ == old_n.node_name@
            &&& new_n.node_value == old_n.node_value
            &&& new_n.element_id == old_n.element_id
            &&& new_n.data@ == old_n.data@
            &&& new_n.child_ids@ == (if id == p_id {
                plist.remove(pos)
            } else {
                old_n.child_ids@
            })
            &&& new_n.parent_id == (if id == c_id {
                None::<NodeId>
            } else {
                old_n.parent_id
            })
            &&& new_n.previous_sibling_id == (if id == c_id {
                None::<NodeId>
            } else if next_opt is Some && id == (next_opt->0).0 {
                prev_opt
            } else {
                old_n.previous_sibling_id
            })
            &&& new_n.next_sibling_id == (if id == c_id {
                None::<NodeId>
            } else if prev_opt is Some && id == (prev_opt->0).0 {
                next_opt
            } else {
                old_n.next_sibling_id
            })
        }
}

/// The stored nodes named `name`, in insertion order.
pub open spec fn nodes_named(s: Seq<(u64, Node)>, name: Seq<char>) -> Seq<Node>
    decreases s.len(),
{
    if s.len() == 0 {
        Seq::empty()
    } else if s.last().1.node_name@ == name {
        nodes_named(s.drop_last(), name).push(s.last().1)
    } else {
        nodes_named(s.drop_last(), name)
    }
}

/// Whether `n`'s element record carries class `class`.
pub open spec fn node_has_class(n: Node, em: Map<u64, Element>, class: Seq<char>) -> bool {
    n.element_id is Some && em.contains_key((n.element_id->0).0) && crate::element::has_class_in(
        em[(n.element_id->0).0].classes@,
        class,
    )
}

/// The stored nodes whose element record carries class `class`, in insertion
/// order.
pub open spec fn nodes_with_class(
    s: Seq<(u64, Node)>,
    em: Map<u64, Element>,
    class: Seq<char>,
) -> Seq<Node>
    decreases s.len(),
{
    if s.len() == 0 {
        Seq::empty()
    } else if node_has_class(s.last().1, em, class) {
        nodes_with_class(s.drop_last(), em, class).push(s.last().1)
    } else {
        nodes_with_class(s.drop_last(), em, class)
    }
}

/// A walk along child references: each step is stored and lists the next
/// identifier among its children.
pub open spec fn node_child_path(m: Map<u64, Node>, path: Seq<u64>, root: u64) -> bool {
    path.len() > 0 && path[0] == root && forall|k: int|
        0 <= k < path.len() - 1 ==> #[trigger] m.contains_key(path[k])
            && m[path[k]].child_ids@.contains(NodeId(path[k + 1]))
}

/// Whether `id` is reachable from `root` along child references.
pub open spec fn node_reachable(m: Map<u64, Node>, root: u64, id: u64) -> bool {
    exists|path: Seq<u64>| #[trigger] node_child_path(m, path, root) && path.last() == id
}

/// The root reaches itself.
pub proof fn lemma_node_reachable_root(m: Map<u64, Node>, root: u64)
    ensures
        node_reachable(m, root, root),
{
    let path = seq![root];
    assert(node_child_path(m, path, root) && path.last() == root);
}

/// Reachability steps through a stored node's child references.
pub proof fn lemma_node_reachable_step(m: Map<u64, Node>, root: u64, id: u64, c: u64)
    requires
        node_reachable(m, root, id),
        m.contains_key(id),
        m[id].child_ids@.contains(NodeId(c)),
    ensures
        node_reachable(m, root, c),
{
    let path = choose|path: Seq<u64>| #[trigger]
        node_child_path(m, path, root) && path.last() == id;
    let path2 = path.push(c);
    assert(node_child_path(m, path2, root)) by {
        assert(forall|k: int| 0 <= k < path.len() ==> path2[k] == path[k]);
        assert(path2[path2.len() - 2] == path.last());
    }
    assert(path2.last() == c);
}

/// When the root is visited and every visited node's children are visited,
/// every reachable identifier is visited.
proof fn lemma_node_reachable_visited(
    m: Map<u64, Node>,
    visited: Seq<NodeId>,
    root: u64,
    path: Seq<u64>,
)
    requires
        node_child_path(m, path, root),
        visited.contains(NodeId(root)),
        forall|j: int, k: int|
            0 <= j < visited.len() && m.contains_key((#[trigger] visited[j]).0) && 0 <= k < m[(
            visited[j]).0].child_ids@.len() ==> visited.contains(
                #[trigger] m[(visited[j]).0].child_ids@[k],
            ),
    ensures
        visited.contains(NodeId(path.last())),
    decreases path.len(),
{
    if path.len() == 1 {
        assert(path.last() == root);
    } else {
        let pre = path.drop_last();
        assert(forall|k: int| 0 <= k < pre.len() ==> pre[k] == path[k]);
        assert forall|k: int| 0 <= k < pre.len() - 1 implies #[trigger] m.contains_key(pre[k])
            && m[pre[k]].child_ids@.contains(NodeId(pre[k + 1])) by {
            assert(pre[k] == path[k] && pre[k + 1] == path[k + 1]);
            assert(m.contains_key(path[k]) && m[path[k]].child_ids@.contains(NodeId(path[k + 1])));
        }
        assert(node_child_path(m, pre, root));
        lemma_node_reachable_visited(m, visited, root, pre);
        let k0: int = path.len() - 2;
        assert(0 <= k0 < path.len() - 1);
        assert(m.contains_key(path[k0]) && m[path[k0]].child_ids@.contains(NodeId(path[k0 + 1])));
        assert(path[k0 + 1] == path.last());
        let penult = path[k0];
        assert(pre.last() == penult);
        let j = choose|j: int| 0 <= j < visited.len() && visited[j] == NodeId(penult);
        assert((visited[j]).0 == penult);
        let kk = choose|kk: int|
            0 <= kk < m[penult].child_ids@.len() && m[penult].child_ids@[kk] == NodeId(
                path.last(),
            );
        assert(visited.contains(m[(visited[j]).0].child_ids@[kk]));
    }
}

/// Whether some pending identifier equals `c`.
pub open spec fn pending_has(st: Seq<NodeId>, c: u64) -> bool {
    exists|j: int| 0 <= j < st.len() && (#[trigger] st[j]).0 == c
}

/// Every child of a visited node is visited or pending, except the last
/// visited node's children before `cutoff`.
pub open spec fn covered_except(
    store: Map<u64, Node>,
    visited: Seq<NodeId>,
    stack: Seq<NodeId>,
    cutoff: int,
) -> bool {
    forall|j: int, k: int|
        0 <= j < visited.len() && 0 <= k < store[(#[trigger] visited[j]).0].child_ids@.len() && !(j
            == visited.len() - 1 && k < cutoff) ==> visited.contains(
            #[trigger] store[(visited[j]).0].child_ids@[k],
        ) || pending_has(stack, store[(visited[j]).0].child_ids@[k].0)
}

/// Every child of a visited node is visited or pending.
pub open spec fn covered(store: Map<u64, Node>, visited: Seq<NodeId>, stack: Seq<NodeId>) -> bool {
    covered_except(store, visited, stack, 0)
}

/// Popping an already-visited identifier keeps the coverage.
proof fn lemma_cover_pop(store: Map<u64, Node>, visited: Seq<NodeId>, pre_stack: Seq<NodeId>)
    requires
        covered(store, visited, pre_stack),
        pre_stack.len() > 0,
        visited.contains(pre_stack.last()),
    ensures
        covered(store, visited, pre_stack.drop_last()),
{
    let stack = pre_stack.drop_last();
    assert forall|j: int, k: int|
        0 <= j < visited.len() && 0 <= k < store[(#[trigger] visited[j]).0].child_ids@.len()
        implies visited.contains(#[trigger] store[(visited[j]).0].child_ids@[k]) || pending_has(
        stack,
        store[(visited[j]).0].child_ids@[k].0,
    ) by {
        let c = store[(visited[j]).0].child_ids@[k];
        if !visited.contains(c) {
            assert(pending_has(pre_stack, c.0));
            let w = choose|w: int| 0 <= w < pre_stack.len() && (#[trigger] pre_stack[w]).0 == c.0;
            if w == pre_stack.len() - 1 {
                assert(c.0 == pre_stack.last().0);
                assert(c == pre_stack.last());
                assert(visited.contains(c));
            } else {
                assert(stack[w] == pre_stack[w]);
                assert(pending_has(stack, c.0));
            }
        }
    }
}

/// Visiting the popped identifier keeps the coverage, up to the new node's
/// own children.
proof fn lemma_cover_visit(
    store: Map<u64, Node>,
    pre_visited: Seq<NodeId>,
    pre_stack: Seq<NodeId>,
    cutoff: int,
)
    requires
        covered(store, pre_visited, pre_stack),
        pre_stack.len() > 0,
        cutoff >= store[(pre_stack.last()).0].child_ids@.len(),
    ensures
        covered_except(
            store,
            pre_visited.push(pre_stack.last()),
            pre_stack.drop_last(),
            cutoff,
        ),
{
    let popped = pre_stack.last();
    let visited = pre_visited.push(popped);
    let stack = pre_stack.drop_last();
    assert forall|j: int, k: int|
        0 <= j < visited.len() && 0 <= k < store[(#[trigger] visited[j]).0].child_ids@.len() && !(j
            == visited.len() - 1 && k < cutoff) implies visited.contains(
        #[trigger] store[(visited[j]).0].child_ids@[k],
    ) || pending_has(stack, store[(visited[j]).0].child_ids@[k].0) by {
        if j < visited.len() - 1 {
            assert(visited[j] == pre_visited[j]);
            let c = store[(visited[j]).0].child_ids@[k];
            if !pre_visited.contains(c) {
                assert(pending_has(pre_stack, c.0));
                let w = choose|w: int|
                    0 <= w < pre_stack.len() && (#[trigger] pre_stack[w]).0 == c.0;
                if w == pre_stack.len() - 1 {
                    assert(c.0 == popped.0);
                    assert(c == popped);
                    assert(visited.contains(c)) by {
                        assert(visited[visited.len() - 1] == popped);
                    }
                } else {
                    assert(stack[w] == pre_stack[w]);
                    assert(pending_has(stack, c.0));
                }
            } else {
                let w = choose|w: int| 0 <= w < pre_visited.len() && pre_visited[w] == c;
                assert(visited[w] == c);
                assert(visited.contains(c));
            }
        } else {
            // the new node's children below the cutoff are all exempt
            assert(visited[j] == popped);
            assert(k < cutoff);
        }
    }
}

/// Pushing the child at the cursor lowers the exemption by one.
proof fn lemma_cover_push(
    store: Map<u64, Node>,
    visited: Seq<NodeId>,
    pre_push: Seq<NodeId>,
    k: int,
)
    requires
        visited.len() >= 1,
        0 <= k < store[(visited.last()).0].child_ids@.len(),
        covered_except(store, visited, pre_push, k + 1),
    ensures
        covered_except(
            store,
            visited,
            pre_push.push(store[(visited.last()).0].child_ids@[k]),
            k,
        ),
{
    let pushed = store[(visited.last()).0].child_ids@[k];
    let stack = pre_push.push(pushed);
    assert forall|j2: int, k2: int|
        0 <= j2 < visited.len() && 0 <= k2 < store[(#[trigger] visited[j2]).0].child_ids@.len()
            && !(j2 == visited.len() - 1 && k2 < k) implies visited.contains(
        #[trigger] store[(visited[j2]).0].child_ids@[k2],
    ) || pending_has(stack, store[(visited[j2]).0].child_ids@[k2].0) by {
        let c = store[(visited[j2]).0].child_ids@[k2];
        if j2 == visited.len() - 1 && k2 == k {
            assert(visited[j2] == visited.last());
            assert(c == pushed);
            assert(pending_has(stack, c.0)) by {
                assert(stack[stack.len() - 1].0 == c.0);
            }
        } else if !visited.contains(c) {
            assert(pending_has(pre_push, c.0));
            let w = choose|w: int| 0 <= w < pre_push.len() && (#[trigger] pre_push[w]).0 == c.0;
            assert(stack[w] == pre_push[w]);
            assert(pending_has(stack, c.0));
        }
    }
}

/// Whether `c_id` is listed in no child sequence of `m`.
pub open spec fn child_unlisted(m: Map<u64, Node>, c_id: u64) -> bool {
    forall|q: u64, i: int|
        m.contains_key(q) && 0 <= i < m[q].child_ids@.len() ==> (#[trigger] m[q].child_ids@[i]).0
            != c_id
}

/// Whether `c_id` carries no listed attachment in `m`: its parent reference
/// is empty, dangling, or not backed by a child-sequence entry.
pub open spec fn unattached_in(m: Map<u64, Node>, c_id: u64) -> bool {
    !(m[c_id].parent_id is Some && m.contains_key((m[c_id].parent_id->0).0) && m[(m[
        c_id].parent_id->0).0].child_ids@.contains(NodeId(c_id)))
}

/// How moving `c_id` to the end of `p_id`'s child sequence reshapes the node
/// map: a child listed under a previous parent is spliced out first, and the
/// splice result is then reshaped by the append.
pub open spec fn reparent_shape(m: Map<u64, Node>, m2: Map<u64, Node>, p_id: u64, c_id: u64) -> bool {
    if unattached_in(m, c_id) {
        append_shape(m, m2, p_id, c_id)
    } else {
        let q = (m[c_id].parent_id->0).0;
        exists|m1: Map<u64, Node>, pos: int|
            {
                &&& 0 <= pos < m[q].child_ids@.len()
                &&& m[q].child_ids@[pos] == NodeId(c_id)
                &&& (forall|j: int| 0 <= j < pos ==> m[q].child_ids@[j] != NodeId(c_id))
                &&& m1.dom() == m.dom()
                &&& #[trigger] remove_shape(m, m1, q, c_id, pos)
                &&& append_shape(m1, m2, p_id, c_id)
            }
    }
}

/// Under consistency, a node with no parent reference is listed in no child
/// sequence.
proof fn lemma_detached_not_listed(m: Map<u64, Node>, c: u64)
    requires
        consistent_map(m),
        m.contains_key(c),
        m[c].parent_id is None,
    ensures
        child_unlisted(m, c),
{
    assert forall|q: u64, i: int|
        m.contains_key(q) && 0 <= i < m[q].child_ids@.len() implies (#[trigger] m[q].child_ids@[i]).0
        != c by {
        if m[q].child_ids@[i].0 == c {
            assert(links_ok(m, m[q]));
            assert(m[c].parent_id == Some(m[q].id));
        }
    }
}

/// Under consistency, a node that carries no listed attachment is listed in
/// no child sequence at all.
proof fn lemma_unattached_not_listed(m: Map<u64, Node>, c: u64)
    requires
        consistent_map(m),
        m.contains_key(c),
        unattached_in(m, c),
    ensures
        child_unlisted(m, c),
{
    assert forall|q: u64, i: int|
        m.contains_key(q) && 0 <= i < m[q].child_ids@.len() implies (#[trigger] m[q].child_ids@[i]).0
        != c by {
        if m[q].child_ids@[i].0 == c {
            assert(links_ok(m, m[q]));
            assert(m[c].parent_id == Some(m[q].id));
            assert(m[q].id.0 == q);
            assert(m[q].child_ids@.contains(NodeId(c))) by {
                assert(m[q].child_ids@[i] == NodeId(c));
            }
        }
    }
}

proof fn lemma_nodup_step(m: Map<u64, Node>, p: u64, i: int, j: int)
    requires
        consistent_map(m),
        m.contains_key(p),
        0 <= i < j < m[p].child_ids@.len(),
    ensures
        m[p].child_ids@[i].0 != m[p].child_ids@[j].0,
    decreases m[p].child_ids@.len() - j,
{
    let ids = m[p].child_ids@;
    if ids[i].0 == ids[j].0 {
        let c = ids[i].0;
        assert(links_ok(m, m[p]));
        assert(m[c].next_sibling_id == (if i == ids.len() - 1 {
            None::<NodeId>
        } else {
            Some(ids[i + 1])
        }));
        assert(m[c].next_sibling_id == (if j == ids.len() - 1 {
            None::<NodeId>
        } else {
            Some(ids[j + 1])
        }));
        if j == ids.len() - 1 {
            // the link at i is a reference while the link at j is empty
            assert(i < ids.len() - 1);
        } else {
            assert(ids[i + 1] == ids[j + 1]);
            lemma_nodup_step(m, p, i + 1, j + 1);
        }
    }
}

/// Under consistency, a child sequence has no duplicate entries.
proof fn lemma_list_nodup(m: Map<u64, Node>, p: u64)
    requires
        consistent_map(m),
        m.contains_key(p),
    ensures
        forall|i: int, j: int|
            0 <= i < j < m[p].child_ids@.len() ==> (#[trigger] m[p].child_ids@[i]).0 != (
            #[trigger] m[p].child_ids@[j]).0,
{
    assert forall|i: int, j: int|
        0 <= i < j < m[p].child_ids@.len() implies (#[trigger] m[p].child_ids@[i]).0 != (
    #[trigger] m[p].child_ids@[j]).0 by {
        lemma_nodup_step(m, p, i, j);
    }
}

/// Appending a detached node at the end of a parent's child sequence, with
/// the sibling references rewritten accordingly, preserves consistency.
proof fn lemma_append_preserves(m: Map<u64, Node>, m2: Map<u64, Node>, p_id: u64, c_id: u64)
    requires
        consistent_map(m),
        m.contains_key(p_id),
        m.contains_key(c_id),
        child_unlisted(m, c_id),
        m2.dom() == m.dom(),
        append_shape(m, m2, p_id, c_id),
    ensures
        consistent_map(m2),
{
    lemma_list_nodup(m, p_id);
    let plist = m[p_id].child_ids@;
    assert forall|id: u64| #[trigger] m2.contains_key(id) implies m2[id].id.0 == id && links_ok(
        m2,
        m2[id],
    ) by {
        assert(m.contains_key(id));
        assert(links_ok(m, m[id]));
        let new_n = m2[id];
        if id == p_id {
            let newlist = new_n.child_ids@;
            assert(newlist == plist.push(NodeId(c_id)));
            assert forall|k: int| 0 <= k < newlist.len() implies {
                let c = (#[trigger] newlist[k]).0;
                &&& m2.contains_key(c)
                &&& m2[c].parent_id == Some(new_n.id)
                &&& m2[c].previous_sibling_id == (if k == 0 {
                    None::<NodeId>
                } else {
                    Some(newlist[k - 1])
                })
                &&& m2[c].next_sibling_id == (if k == newlist.len() - 1 {
                    None::<NodeId>
                } else {
                    Some(newlist[k + 1])
                })
            } by {
                if k < plist.len() {
                    let x = plist[k].0;
                    assert(newlist[k] == plist[k]);
                    assert(m.contains_key(x));
                    assert(x != c_id);
                    assert(m[x].parent_id == Some(m[p_id].id));
                    assert(m2[x].parent_id == Some(m[p_id].id));
                    assert(m2[x].previous_sibling_id == m[x].previous_sibling_id);
                    if k == plist.len() - 1 {
                        assert(x == plist.last().0);
                        assert(m2[x].next_sibling_id == Some(NodeId(c_id)));
                        assert(newlist[k + 1] == NodeId(c_id));
                    } else {
                        // not the last entry, so its forward link is unchanged
                        assert(x != plist.last().0);
                        assert(m2[x].next_sibling_id == m[x].next_sibling_id);
                        assert(m[x].next_sibling_id == Some(plist[k + 1]));
                        assert(newlist[k + 1] == plist[k + 1]);
                    }
                    if k > 0 {
                        assert(newlist[k - 1] == plist[k - 1]);
                    }
                } else {
                    // the appended child itself
                    assert(newlist[k] == NodeId(c_id));
                    assert(k == plist.len());
                    assert(m2[c_id].parent_id == Some(NodeId(p_id)));
                    assert(m[p_id].id.0 == p_id);
                    assert(new_n.id == m[p_id].id);
                    if k > 0 {
                        assert(newlist[k - 1] == plist[k - 1]);
                        assert(plist.last() == plist[k - 1]);
                    }
                }
            }
        } else {
            let lst = new_n.child_ids@;
            assert(lst == m[id].child_ids@);
            assert forall|k: int| 0 <= k < lst.len() implies {
                let c = (#[trigger] lst[k]).0;
                &&& m2.contains_key(c)
                &&& m2[c].parent_id == Some(new_n.id)
                &&& m2[c].previous_sibling_id == (if k == 0 {
                    None::<NodeId>
                } else {
                    Some(lst[k - 1])
                })
                &&& m2[c].next_sibling_id == (if k == lst.len() - 1 {
                    None::<NodeId>
                } else {
                    Some(lst[k + 1])
                })
            } by {
                let x = lst[k].0;
                assert(m.contains_key(x));
                assert(x != c_id);
                assert(m[x].parent_id == Some(m[id].id));
                if plist.len() > 0 && x == plist.last().0 {
                    // the old last child belongs to p_id alone
                    assert(m[x].parent_id == Some(m[p_id].id));
                    assert(m[id].id.0 == id && m[p_id].id.0 == p_id);
                    assert(false);
                }
                assert(m2[x].parent_id == m[x].parent_id);
                assert(m2[x].previous_sibling_id == m[x].previous_sibling_id);
                assert(m2[x].next_sibling_id == m[x].next_sibling_id);
            }
        }
    }
}

/// Splicing a child out of its parent's child sequence, clearing its own
/// references and reconnecting its former neighbours preserves consistency.
#[verifier::rlimit(100)]
#[verifier::spinoff_prover]
proof fn lemma_remove_preserves(m: Map<u64, Node>, m2: Map<u64, Node>, p_id: u64, c_id: u64, pos: int)
    requires
        consistent_map(m),
        m.contains_key(p_id),
        0 <= pos < m[p_id].child_ids@.len(),
        m[p_id].child_ids@[pos].0 == c_id,
        m2.dom() == m.dom(),
        remove_shape(m, m2, p_id, c_id, pos),
    ensures
        consistent_map(m2),
{
    lemma_list_nodup(m, p_id);
    let plist = m[p_id].child_ids@;
    let prev_opt = if pos == 0 {
        None::<NodeId>
    } else {
        Some(plist[pos - 1])
    };
    let next_opt = if pos == plist.len() - 1 {
        None::<NodeId>
    } else {
        Some(plist[pos + 1])
    };
    assert(m.contains_key(c_id));
    assert forall|id: u64| #[trigger] m2.contains_key(id) implies m2[id].id.0 == id && links_ok(
        m2,
        m2[id],
    ) by {
        assert(m.contains_key(id));
        assert(links_ok(m, m[id]));
        let new_n = m2[id];
        if id == p_id {
            let newlist = new_n.child_ids@;
            assert(newlist == plist.remove(pos));
            assert forall|k: int| 0 <= k < newlist.len() implies {
                let c = (#[trigger] newlist[k]).0;
                &&& m2.contains_key(c)
                &&& m2[c].parent_id == Some(new_n.id)
                &&& m2[c].previous_sibling_id == (if k == 0 {
                    None::<NodeId>
                } else {
                    Some(newlist[k - 1])
                })
                &&& m2[c].next_sibling_id == (if k == newlist.len() - 1 {
                    None::<NodeId>
                } else {
                    Some(newlist[k + 1])
                })
            } by {
                let ko: int = if k < pos {
                    k
                } else {
                    k + 1
                };
                let x = plist[ko].0;
                assert(newlist[k] == plist[ko]);
                assert(m.contains_key(x));
                assert(x != c_id);
                assert(m[x].parent_id == Some(m[p_id].id));
                assert(m2[x].parent_id == Some(m[p_id].id));
                // neighbours around the splice
                if k > 0 {
                    assert(newlist[k - 1] == (if k - 1 < pos {
                        plist[k - 1]
                    } else {
                        plist[k]
                    }));
                }
                if k < newlist.len() - 1 {
                    assert(newlist[k + 1] == (if k + 1 < pos {
                        plist[k + 1]
                    } else {
                        plist[k + 2]
                    }));
                }
                // previous link of x
                if next_opt is Some && x == (next_opt->0).0 {
                    assert(plist[pos + 1].0 == x);
                    assert(ko == pos + 1);
                    assert(m2[x].previous_sibling_id == prev_opt);
                } else {
                    assert(m2[x].previous_sibling_id == m[x].previous_sibling_id);
                    assert(ko != pos + 1 || !(next_opt is Some));
                }
                // next link of x
                if prev_opt is Some && x == (prev_opt->0).0 {
                    assert(plist[pos - 1].0 == x);
                    assert(ko == pos - 1);
                    assert(m2[x].next_sibling_id == next_opt);
                } else {
                    assert(m2[x].next_sibling_id == m[x].next_sibling_id);
                    assert(ko != pos - 1 || !(prev_opt is Some));
                }
            }
        } else {
            let lst = new_n.child_ids@;
            assert(lst == m[id].child_ids@);
            assert forall|k: int| 0 <= k < lst.len() implies {
                let c = (#[trigger] lst[k]).0;
                &&& m2.contains_key(c)
                &&& m2[c].parent_id == Some(new_n.id)
                &&& m2[c].previous_sibling_id == (if k == 0 {
                    None::<NodeId>
                } else {
                    Some(lst[k - 1])
                })
                &&& m2[c].next_sibling_id == (if k == lst.len() - 1 {
                    None::<NodeId>
                } else {
                    Some(lst[k + 1])
                })
            } by {
                let x = lst[k].0;
                assert(m.contains_key(x));
                assert(m[x].parent_id == Some(m[id].id));
                assert(m[id].id.0 == id && m[p_id].id.0 == p_id);
                if x == c_id {
                    // the spliced child belongs to p_id, not to this parent
                    assert(m[c_id].parent_id == Some(m[p_id].id));
                    assert(false);
                }
                if next_opt is Some && x == (next_opt->0).0 {
                    assert(m[x].parent_id == Some(m[p_id].id));
                    assert(false);
                }
                if prev_opt is Some && x == (prev_opt->0).0 {
                    assert(m[x].parent_id == Some(m[p_id].id));
                    assert(false);
                }
                assert(m2[x].parent_id == m[x].parent_id);
                assert(m2[x].previous_sibling_id == m[x].previous_sibling_id);
                assert(m2[x].next_sibling_id == m[x].next_sibling_id);
            }
        }
    }
}

/// A duplicate-free identifier list drawn from the store is no longer than
/// the store.
proof fn lemma_visited_len_bound(visited: Seq<NodeId>, tree: DomTree)
    requires
        tree.store_wf(),
        forall|i: int, j: int| 0 <= i < j < visited.len() ==> visited[i] != visited[j],
        forall|i: int|
            0 <= i < visited.len() ==> tree.nodes_map().contains_key((#[trigger] visited[i]).0),
    ensures
        visited.len() <= tree.spec_node_count(),
{
    let a = visited.map_values(|x: NodeId| x.0);
    let b = tree.nodes@.map_values(|e: (u64, Node)| e.0);
    assert forall|i: int| 0 <= i < a.len() implies b.contains(#[trigger] a[i]) by {
        assert(a[i] == visited[i].0);
        assert(tree.nodes_map().contains_key(visited[i].0));
        lemma_umap_dom(tree.nodes@, visited[i].0);
        let k = choose|k: int| 0 <= k < tree.nodes@.len() && tree.nodes@[k].0 == visited[i].0;
        assert(b[k] == visited[i].0);
    }
    assert forall|i: int, j: int| 0 <= i < j < a.len() implies a[i] != a[j] by {
        assert(a[i] == visited[i].0 && a[j] == visited[j].0);
        assert(visited[i] != visited[j]);
        if visited[i].0 == visited[j].0 {
            assert(visited[i] == visited[j]);
        }
    }
    assert(forall|i: int, j: int| 0 <= i < j < b.len() ==> b[i] != b[j]) by {
        assert(forall|i: int| 0 <= i < b.len() ==> b[i] == tree.nodes@[i].0);
    }
    crate::assoc::lemma_distinct_keys_len(a, b);
}

/// Law: in a well-formed tree, every child identifier listed under a parent
/// names a stored node whose parent field is that parent, and the sibling
/// chain under each parent matches the child sequence exactly.
pub proof fn lemma_tree_consistency(t: DomTree)
    requires
        t.wf(),
    ensures
        consistent_map(t.nodes_map()),
{
}

/// Consistency transfers along a map whose values agree field for field.
proof fn lemma_consistent_equiv(m: Map<u64, Node>, m2: Map<u64, Node>)
    requires
        consistent_map(m),
        m2.dom() == m.dom(),
        forall|id: u64| #[trigger] m.contains_key(id) ==> m2[id].equiv(m[id]),
    ensures
        consistent_map(m2),
{
    assert forall|id: u64| #[trigger] m2.contains_key(id) implies m2[id].id.0 == id && links_ok(
        m2,
        m2[id],
    ) by {
        assert(m.contains_key(id));
        assert(links_ok(m, m[id]));
        assert forall|i: int| 0 <= i < m2[id].child_ids@.len() implies {
            let c = (#[trigger] m2[id].child_ids@[i]).0;
            &&& m2.contains_key(c)
            &&& m2[c].parent_id == Some(m2[id].id)
            &&& m2[c].previous_sibling_id == (if i == 0 {
                None::<NodeId>
            } else {
                Some(m2[id].child_ids@[i - 1])
            })
            &&& m2[c].next_sibling_id == (if i == m2[id].child_ids@.len() - 1 {
                None::<NodeId>
            } else {
                Some(m2[id].child_ids@[i + 1])
            })
        } by {
            assert(m2[id].child_ids@ == m[id].child_ids@);
            let c = m2[id].child_ids@[i].0;
            assert(m.contains_key(c));
            assert(m2[c].equiv(m[c]));
        }
    }
}

impl Clone for DomTree {
    /// A deep copy: same identifiers, root, counters, and field-for-field
    /// equal nodes and elements.
    fn clone(&self) -> (r: Self)
        ensures
            self.wf() ==> r.wf(),
            r.root() == self.root(),
            r.next_node() == self.next_node(),
            r.next_element() == self.next_element(),
            r.spec_node_count() == self.spec_node_count(),
            r.spec_element_count() == self.spec_element_count(),
            r.nodes_map().dom() == self.nodes_map().dom(),
            r.elements_map().dom() == self.elements_map().dom(),
            forall|k: u64| #[trigger]
                self.nodes_map().contains_key(k) ==> r.nodes_map()[k].equiv(self.nodes_map()[k]),
            forall|k: u64| #[trigger]
                self.elements_map().contains_key(k) ==> r.elements_map()[k].equiv(
                    self.elements_map()[k],
                ),
    {
        let mut nodes: Vec<(u64, Node)> = Vec::new();
        let n = self.nodes.len();
        let mut i: usize = 0;
        while i < n
            invariant
                n == self.nodes@.len(),
                i <= n,
                nodes@.len() == i,
                forall|k: int|
                    0 <= k < i ==> (#[trigger] nodes@[k]).0 == self.nodes@[k].0
                        && nodes@[k].1.equiv(self.nodes@[k].1) && (self.nodes@[k].1.wf()
                        ==> nodes@[k].1.wf()),
            decreases n - i,
        {
            let key = self.nodes[i].0;
            let node = self.nodes[i].1.clone();
            nodes.push((key, node));
            i = i + 1;
        }
        let mut elements: Vec<(u64, Element)> = Vec::new();
        let m = self.elements.len();
        let mut j: usize = 0;
        while j < m
            invariant
                m == self.elements@.len(),
                j <= m,
                elements@.len() == j,
                forall|k: int|
                    0 <= k < j ==> (#[trigger] elements@[k]).0 == self.elements@[k].0
                        && elements@[k].1.equiv(self.elements@[k].1) && (self.elements@[k].1.wf()
                        ==> elements@[k].1.wf()),
            decreases m - j,
        {
            let key = self.elements[j].0;
            let element = self.elements[j].1.clone();
            elements.push((key, element));
            j = j + 1;
        }
        let r = DomTree {
            nodes,
            elements,
            root_id: self.root_id,
            next_node_id: self.next_node_id,
            next_element_id: self.next_element_id,
        };
        proof {
            lemma_entrywise_equiv_maps(self.nodes@, r.nodes@);
            lemma_entrywise_equiv_elem_maps(self.elements@, r.elements@);
            if self.wf() {
                lemma_consistent_equiv(self.nodes_map(), r.nodes_map());
            }
        }
        r
    }
}

/// Entrywise-equal keys with field-for-field equal nodes give maps with the
/// same domain and pointwise equivalent values.
proof fn lemma_entrywise_equiv_maps(a: Seq<(u64, Node)>, b: Seq<(u64, Node)>)
    requires
        a.len() == b.len(),
        forall|k: int| 0 <= k < a.len() ==> (#[trigger] b[k]).0 == a[k].0 && b[k].1.equiv(a[k].1),
    ensures
        umap_of(b).dom() == umap_of(a).dom(),
        forall|key: u64| #[trigger]
            umap_of(a).contains_key(key) ==> umap_of(b)[key].equiv(umap_of(a)[key]),
        ukeys_unique(a) ==> ukeys_unique(b),
    decreases a.len(),
{
    if a.len() == 0 {
        assert(umap_of(b).dom() =~= umap_of(a).dom());
    } else {
        let a2 = a.drop_last();
        let b2 = b.drop_last();
        assert(forall|k: int|
            0 <= k < a2.len() ==> (#[trigger] b2[k]).0 == a2[k].0 && b2[k].1.equiv(a2[k].1)) by {
            assert(forall|k: int| 0 <= k < a2.len() ==> a2[k] == a[k] && b2[k] == b[k]);
        }
        lemma_entrywise_equiv_maps(a2, b2);
        assert(b.last().0 == a.last().0);
        assert(umap_of(b).dom() =~= umap_of(a).dom());
        assert forall|key: u64| #[trigger] umap_of(a).contains_key(key) implies umap_of(
            b,
        )[key].equiv(umap_of(a)[key]) by {
            if key == a.last().0 {
                assert(umap_of(a)[key] == a.last().1 && umap_of(b)[key] == b.last().1);
            } else {
                assert(umap_of(a)[key] == umap_of(a2)[key] && umap_of(b)[key] == umap_of(b2)[key]);
                lemma_umap_dom(a, key);
                lemma_umap_dom(a2, key);
                let w = choose|w: int| 0 <= w < a.len() && a[w].0 == key;
                assert(w < a2.len() && a2[w].0 == key);
            }
        }
        if ukeys_unique(a) {
            assert(ukeys_unique(b)) by {
                assert(forall|x: int| 0 <= x < b.len() ==> (#[trigger] b[x]).0 == a[x].0);
            }
        }
    }
}

/// As `lemma_entrywise_equiv_maps`, for element entries.
proof fn lemma_entrywise_equiv_elem_maps(a: Seq<(u64, Element)>, b: Seq<(u64, Element)>)
    requires
        a.len() == b.len(),
        forall|k: int| 0 <= k < a.len() ==> (#[trigger] b[k]).0 == a[k].0 && b[k].1.equiv(a[k].1),
    ensures
        umap_of(b).dom() == umap_of(a).dom(),
        forall|key: u64| #[trigger]
            umap_of(a).contains_key(key) ==> umap_of(b)[key].equiv(umap_of(a)[key]),
        ukeys_unique(a) ==> ukeys_unique(b),
    decreases a.len(),
{
    if a.len() == 0 {
        assert(umap_of(b).dom() =~= umap_of(a).dom());
    } else {
        let a2 = a.drop_last();
        let b2 = b.drop_last();
        assert(forall|k: int|
            0 <= k < a2.len() ==> (#[trigger] b2[k]).0 == a2[k].0 && b2[k].1.equiv(a2[k].1)) by {
            assert(forall|k: int| 0 <= k < a2.len() ==> a2[k] == a[k] && b2[k] == b[k]);
        }
        lemma_entrywise_equiv_elem_maps(a2, b2);
        assert(b.last().0 == a.last().0);
        assert(umap_of(b).dom() =~= umap_of(a).dom());
        assert forall|key: u64| #[trigger] umap_of(a).contains_key(key) implies umap_of(
            b,
        )[key].equiv(umap_of(a)[key]) by {
            if key == a.last().0 {
                assert(umap_of(a)[key] == a.last().1 && umap_of(b)[key] == b.last().1);
            } else {
                assert(umap_of(a)[key] == umap_of(a2)[key] && umap_of(b)[key] == umap_of(b2)[key]);
                lemma_umap_dom(a, key);
                lemma_umap_dom(a2, key);
                let w = choose|w: int| 0 <= w < a.len() && a[w].0 == key;
                assert(w < a2.len() && a2[w].0 == key);
            }
        }
        if ukeys_unique(a) {
            assert(ukeys_unique(b)) by {
                assert(forall|x: int| 0 <= x < b.len() ==> (#[trigger] b[x]).0 == a[x].0);
            }
        }
    }
}

} // verus!
// appended: stage 2
