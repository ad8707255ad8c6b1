//! The layout tree: the geometry-bearing mirror of the document tree.
//!
//! Each layout node owns a box model and at most one flow strategy (flex
//! before grid, plain box model as the fallback). Resolution walks the tree
//! from the root: a node's strategy consumes the available size passed down
//! from its parent and yields the node's own rectangle, and each child is
//! then offered the node's resolved size.

use vstd::prelude::*;

use crate::assoc::{
    lemma_distinct_keys_len, lemma_umap_dom, lemma_umap_index, lemma_umap_push, ufind,
    ukeys_unique, umap_of,
};
use crate::box_model::{box_ok, BoxModel, BoxSizing};
use crate::errors::{LayoutError, VeloraError, VeloraResult};
use crate::flexbox::{flex_items_ok, FlexboxLayout};
use crate::grid::{grid_cell_extent, grid_config_ok, GridLayout};
use crate::types::{coord_ok, size_ok, NodeId, Rect, Size, MAX_COORD};

verus! {

/// One node of the layout tree.
pub struct LayoutNode {
    /// Identifier, matching the document node this mirrors.
    pub node_id: NodeId,
    /// Box model of this node.
    pub box_model: BoxModel,
    /// Flex strategy, when active.
    pub flexbox: Option<FlexboxLayout>,
    /// Grid strategy, when active; flex takes priority when both are present.
    pub grid: Option<GridLayout>,
    /// Parent layout node.
    pub parent_id: Option<NodeId>,
    /// Child layout nodes, mirroring the document order.
    pub child_ids: Vec<NodeId>,
}

/// A layout node whose geometry lies in the accepted range: in-range box
/// rectangles, thicknesses that do not deflate (no negative extents), and
/// in-range strategy configurations.
pub open spec fn layout_node_ok(n: LayoutNode) -> bool {
    &&& box_ok(n.box_model)
    &&& n.box_model.padding.width >= 0 && n.box_model.padding.height >= 0
    &&& n.box_model.border.width >= 0 && n.box_model.border.height >= 0
    &&& n.box_model.margin.width >= 0 && n.box_model.margin.height >= 0
    &&& (n.flexbox is Some ==> flex_items_ok(n.flexbox->0.spec_items()))
    &&& (n.grid is Some ==> grid_config_ok(n.grid->0.spec_container()) && n.grid->0.spec_items().len()
        <= MAX_COORD)
}

/// Whether resolving `n` under available size `avail` succeeds.
pub open spec fn node_resolves(n: LayoutNode, avail: Size) -> bool {
    if n.flexbox is Some {
        true
    } else if n.grid is Some {
        let g = n.grid->0;
        g.spec_items().len() == 0 || (g.spec_columns() >= 1 && g.spec_rows() >= 1)
    } else {
        avail.width - n.box_model.padding.width - n.box_model.border.width
            - n.box_model.margin.width >= 0 && avail.height - n.box_model.padding.height
            - n.box_model.border.height - n.box_model.margin.height >= 0
    }
}

/// The rectangle resolution assigns to `n` under available size `avail`:
/// the first rectangle its strategy produces, the available size for a
/// strategy with no items, or the box-model content size.
pub open spec fn node_rect(n: LayoutNode, avail: Size) -> Rect {
    if n.flexbox is Some {
        let f = n.flexbox->0;
        if f.spec_items().len() > 0 {
            Rect {
                x: 0,
                y: 0,
                width: crate::flexbox::flex_item_size(f.spec_items()[0]).width,
                height: crate::flexbox::flex_item_size(f.spec_items()[0]).height,
            }
        } else {
            Rect { x: 0, y: 0, width: avail.width, height: avail.height }
        }
    } else if n.grid is Some {
        let g = n.grid->0;
        if g.spec_items().len() > 0 {
            Rect {
                x: 0,
                y: 0,
                width: grid_cell_extent(
                    avail.width as int,
                    g.spec_columns(),
                    g.spec_container().column_gap as int,
                ) as i64,
                height: grid_cell_extent(
                    avail.height as int,
                    g.spec_rows(),
                    g.spec_container().row_gap as int,
                ) as i64,
            }
        } else {
            Rect { x: 0, y: 0, width: avail.width, height: avail.height }
        }
    } else {
        Rect {
            x: 0,
            y: 0,
            width: (avail.width - n.box_model.padding.width - n.box_model.border.width
                - n.box_model.margin.width) as i64,
            height: (avail.height - n.box_model.padding.height - n.box_model.border.height
                - n.box_model.margin.height) as i64,
        }
    }
}

/// A walk along child references: each step is stored and lists the next
/// identifier among its children.
pub open spec fn is_child_path(m: Map<u64, LayoutNode>, path: Seq<u64>, root: u64) -> bool {
    path.len() > 0 && path[0] == root && forall|k: int|
        0 <= k < path.len() - 1 ==> #[trigger] m.contains_key(path[k])
            && m[path[k]].child_ids@.contains(NodeId(path[k + 1]))
}

/// Whether `id` is reachable from `root` along child references.
pub open spec fn reachable(m: Map<u64, LayoutNode>, root: u64, id: u64) -> bool {
    exists|path: Seq<u64>| #[trigger] is_child_path(m, path, root) && path.last() == id
}

/// The root reaches itself.
pub proof fn lemma_reachable_root(m: Map<u64, LayoutNode>, root: u64)
    ensures
        reachable(m, root, root),
{
    let path = seq![root];
    assert(is_child_path(m, path, root) && path.last() == root);
}

/// Reachability steps through a stored node's child references.
pub proof fn lemma_reachable_step(m: Map<u64, LayoutNode>, root: u64, id: u64, c: u64)
    requires
        reachable(m, root, id),
        m.contains_key(id),
        m[id].child_ids@.contains(NodeId(c)),
    ensures
        reachable(m, root, c),
{
    let path = choose|path: Seq<u64>| #[trigger] is_child_path(m, path, root) && path.last() == id;
    let path2 = path.push(c);
    assert(is_child_path(m, path2, root)) by {
        assert(forall|k: int| 0 <= k < path.len() ==> path2[k] == path[k]);
        assert(path2[path2.len() - 2] == path.last());
    }
    assert(path2.last() == c);
}

/// An in-range, nonnegative size.
pub open spec fn nonneg_size(s: Size) -> bool {
    0 <= s.width <= MAX_COORD && 0 <= s.height <= MAX_COORD
}

/// A node that resolves under every in-range nonnegative size, and whose
/// resolved rectangle has in-range nonnegative dimensions again.
pub open spec fn node_safe(n: LayoutNode) -> bool {
    forall|s: Size|
        nonneg_size(s) ==> #[trigger] node_resolves(n, s) && nonneg_size(
            Size { width: node_rect(n, s).width, height: node_rect(n, s).height },
        )
}

/// Inputs under which resolution is owed success: a nonnegative container
/// and, at every identifier reachable from the root, a stored, safe node.
pub open spec fn safe_inputs(m: Map<u64, LayoutNode>, root: u64, container: Size) -> bool {
    nonneg_size(container) && forall|id: u64|
        #[trigger] reachable(m, root, id) ==> m.contains_key(id) && node_safe(m[id])
}

/// Whether some pending entry carries identifier `c`.
pub open spec fn stack_has(st: Seq<(NodeId, Size)>, c: u64) -> bool {
    exists|j: int| 0 <= j < st.len() && (#[trigger] st[j]).0.0 == c
}

/// When the root is mapped and every mapped node's children are mapped, every
/// reachable identifier is mapped.
proof fn lemma_reachable_mapped(
    m: Map<u64, LayoutNode>,
    rm: Map<u64, Rect>,
    root: u64,
    path: Seq<u64>,
)
    requires
        is_child_path(m, path, root),
        rm.contains_key(root),
        forall|id: u64, k: int|
            #[trigger] rm.contains_key(id) && m.contains_key(id) && 0 <= k
                < m[id].child_ids@.len() ==> rm.contains_key((#[trigger] m[id].child_ids@[k]).0),
    ensures
        rm.contains_key(path.last()),
    decreases path.len(),
{
    if path.len() > 1 {
        let pre = path.drop_last();
        assert(is_child_path(m, pre, root)) by {
            assert(forall|k: int| 0 <= k < pre.len() ==> pre[k] == path[k]);
        }
        lemma_reachable_mapped(m, rm, root, pre);
        let k0: int = path.len() - 2;
        assert(0 <= k0 < path.len() - 1);
        assert(is_child_path(m, path, root));
        assert(m.contains_key(path[k0]) && m[path[k0]].child_ids@.contains(NodeId(path[k0 + 1])));
        let penult = path[k0];
        assert(pre.last() == penult);
        assert(path[k0 + 1] == path.last());
        let k = choose|k: int|
            0 <= k < m[penult].child_ids@.len() && m[penult].child_ids@[k] == NodeId(path.last());
        assert(rm.contains_key(m[penult].child_ids@[k].0));
    }
}

/// A resolved mapping from node identifier to rectangle.
pub struct RectMap {
    entries: Vec<(u64, Rect)>,
}

impl RectMap {
    /// The mapping's view.
    pub closed spec fn view(self) -> Map<u64, Rect> {
        umap_of(self.entries@)
    }

    /// The mapping's own invariant: unique keys.
    pub closed spec fn wf(self) -> bool {
        ukeys_unique(self.entries@)
    }

    /// Number of entries.
    pub closed spec fn spec_len(self) -> nat {
        self.entries@.len()
    }

    /// An empty mapping.
    pub fn new() -> (r: RectMap)
        ensures
            r.wf(),
            r@ == Map::<u64, Rect>::empty(),
            r.spec_len() == 0,
    {
        RectMap { entries: Vec::new() }
    }

    /// Number of entries.
    pub fn len(&self) -> (r: usize)
        ensures
            r == self.spec_len(),
    {
        self.entries.len()
    }

    /// Whether `node_id` is mapped.
    pub fn contains_key(&self, node_id: NodeId) -> (r: bool)
        ensures
            r == self@.contains_key(node_id.0),
    {
        proof {
            lemma_umap_dom(self.entries@, node_id.0);
        }
        match ufind(&self.entries, node_id.0) {
            Some(_) => true,
            None => false,
        }
    }

    /// The rectangle mapped to `node_id`, if any.
    pub fn get(&self, node_id: NodeId) -> (r: Option<&Rect>)
        requires
            self.wf(),
        ensures
            match r {
                Some(rect) => self@.contains_key(node_id.0) && *rect == self@[node_id.0],
                None => !self@.contains_key(node_id.0),
            },
    {
        proof {
            lemma_umap_dom(self.entries@, node_id.0);
        }
        match ufind(&self.entries, node_id.0) {
            Some(i) => {
                proof {
                    lemma_umap_index(self.entries@, i as int);
                }
                Some(&self.entries[i].1)
            },
            None => None,
        }
    }

    /// Inserts an unmapped key.
    fn insert_fresh(&mut self, node_id: NodeId, rect: Rect)
        requires
            old(self).wf(),
            !old(self)@.contains_key(node_id.0),
        ensures
            final(self).wf(),
            final(self)@ == old(self)@.insert(node_id.0, rect),
            final(self).spec_len() == old(self).spec_len() + 1,
    {
        proof {
            lemma_umap_dom(self.entries@, node_id.0);
            lemma_umap_push(self.entries@, (node_id.0, rect));
        }
        self.entries.push((node_id.0, rect));
    }
}

/// A layout tree: layout nodes keyed by identifier, with a distinguished
/// root.
pub struct LayoutTree {
    root_id: Option<NodeId>,
    nodes: Vec<(u64, LayoutNode)>,
}

impl LayoutTree {
    /// The node store as a map.
    pub closed spec fn nodes_map(self) -> Map<u64, LayoutNode> {
        umap_of(self.nodes@)
    }

    /// The root identifier.
    pub closed spec fn root(self) -> Option<NodeId> {
        self.root_id
    }

    /// Number of nodes.
    pub closed spec fn spec_node_count(self) -> nat {
        self.nodes@.len()
    }

    /// The tree's own invariant: unique keys, entries keyed by their node's
    /// identifier, and in-range geometry everywhere.
    pub closed spec fn wf(self) -> bool {
        &&& ukeys_unique(self.nodes@)
        &&& forall|i: int|
            0 <= i < self.nodes@.len() ==> (#[trigger] self.nodes@[i]).1.node_id.0
                == self.nodes@[i].0 && layout_node_ok(self.nodes@[i].1)
    }

    /// Creates an empty layout tree.
    pub fn new() -> (r: LayoutTree)
        ensures
            r.wf(),
            r.nodes_map() == Map::<u64, LayoutNode>::empty(),
            r.root() is None,
            r.spec_node_count() == 0,
    {
        LayoutTree { root_id: None, nodes: Vec::new() }
    }

    /// Makes `node_id` the root.
    pub fn set_root(&mut self, node_id: NodeId)
        ensures
            final(self).root() == Some(node_id),
            final(self).nodes_map() == old(self).nodes_map(),
            final(self).spec_node_count() == old(self).spec_node_count(),
            old(self).wf() ==> final(self).wf(),
    {
        self.root_id = Some(node_id);
    }

    /// The root identifier, if set.
    pub fn get_root(&self) -> (r: Option<NodeId>)
        ensures
            r == self.root(),
    {
        self.root_id
    }

    /// Inserts a layout node under its own identifier; rejected when that
    /// identifier is already present. The first node inserted becomes the
    /// root.
    pub fn add_node(&mut self, node: LayoutNode) -> (r: VeloraResult<()>)
        requires
            old(self).wf(),
            layout_node_ok(node),
        ensures
            final(self).wf(),
            r is Ok <==> !old(self).nodes_map().contains_key(node.node_id.0),
            r is Ok ==> final(self).nodes_map() == old(self).nodes_map().insert(
                node.node_id.0,
                node,
            ) && final(self).spec_node_count() == old(self).spec_node_count() + 1 && final(
                self).root() == (if old(self).root() is None {
                Some(node.node_id)
            } else {
                old(self).root()
            }),
            r is Err ==> *final(self) == *old(self) && r matches Err(
                VeloraError::Layout(LayoutError::InvalidConstraints(_)),
            ),
    {
        proof {
            lemma_umap_dom(self.nodes@, node.node_id.0);
        }
        match ufind(&self.nodes, node.node_id.0) {
            Some(_) => Err(
                VeloraError::Layout(
                    LayoutError::InvalidConstraints("layout node already exists".to_owned()),
                ),
            ),
            None => {
                proof {
                    lemma_umap_push(self.nodes@, (node.node_id.0, node));
                }
                let key = node.node_id.0;
                self.nodes.push((key, node));
                if self.root_id.is_none() {
                    self.root_id = Some(NodeId(key));
                }
                Ok(())
            },
        }
    }

    /// The layout node stored under `node_id`.
    pub fn get_node(&self, node_id: NodeId) -> (r: Option<&LayoutNode>)
        requires
            self.wf(),
        ensures
            match r {
                Some(n) => self.nodes_map().contains_key(node_id.0) && *n == self.nodes_map()[
                    node_id.0],
                None => !self.nodes_map().contains_key(node_id.0),
            },
    {
        proof {
            lemma_umap_dom(self.nodes@, node_id.0);
        }
        match ufind(&self.nodes, node_id.0) {
            Some(i) => {
                proof {
                    lemma_umap_index(self.nodes@, i as int);
                }
                Some(&self.nodes[i].1)
            },
            None => None,
        }
    }

    /// Removes the layout node stored under `node_id`; returns whether one
    /// was there.
    pub fn remove_node(&mut self, node_id: NodeId) -> (r: bool)
        requires
            old(self).wf(),
        ensures
            final(self).wf(),
            r == old(self).nodes_map().contains_key(node_id.0),
            final(self).nodes_map() == old(self).nodes_map().remove(node_id.0),
            r ==> final(self).spec_node_count() == old(self).spec_node_count() - 1,
            !r ==> *final(self) == *old(self),
            final(self).root() == old(self).root(),
    {
        proof {
            lemma_umap_dom(self.nodes@, node_id.0);
        }
        match ufind(&self.nodes, node_id.0) {
            Some(i) => {
                proof {
                    crate::assoc::lemma_umap_remove(self.nodes@, i as int);
                }
                self.nodes.remove(i);
                true
            },
            None => {
                proof {
                    assert(self.nodes_map().remove(node_id.0) =~= self.nodes_map());
                }
                false
            },
        }
    }

    /// Number of layout nodes.
    pub fn node_count(&self) -> (r: usize)
        ensures
            r == self.spec_node_count(),
    {
        self.nodes.len()
    }

    /// Whether the tree holds no nodes.
    pub fn is_empty(&self) -> (r: bool)
        ensures
            r == (self.spec_node_count() == 0),
    {
        self.nodes.is_empty()
    }

    /// Resolves the layout: starting at the root with the container size,
    /// each node takes the rectangle its strategy yields under the size
    /// passed down, and offers its own resolved size to each of its children.
    /// Any failing step aborts the whole calculation; on success the mapping
    /// covers exactly the identifiers reachable from the root.
    #[verifier::rlimit(100)]
    #[verifier::spinoff_prover]
    pub fn calculate_layout(&self, container_size: Size) -> (r: VeloraResult<RectMap>)
        requires
            self.wf(),
            size_ok(container_size),
        ensures
            self.root() is None ==> r is Ok && r->Ok_0.spec_len() == 0,
            r is Ok ==> r->Ok_0.wf(),
            r is Ok && self.root() is Some ==> ({
                let root = (self.root()->0).0;
                let m = r->Ok_0@;
                &&& (self.nodes_map().contains_key(root) ==> m.contains_key(root) && m[root]
                    == node_rect(self.nodes_map()[root], container_size))
                &&& forall|id: u64| #[trigger]
                    m.contains_key(id) ==> self.nodes_map().contains_key(id) && (id != root
                        ==> exists|pid: u64|
                        {
                            &&& #[trigger] m.contains_key(pid)
                            &&& self.nodes_map().contains_key(pid)
                            &&& self.nodes_map()[pid].child_ids@.contains(NodeId(id))
                            &&& m[id] == node_rect(
                                self.nodes_map()[id],
                                Size { width: m[pid].width, height: m[pid].height },
                            )
                        })
                &&& (forall|id: u64| #[trigger]
                    m.contains_key(id) ==> reachable(self.nodes_map(), root, id))
                &&& (forall|id: u64| #[trigger]
                    reachable(self.nodes_map(), root, id) ==> m.contains_key(id))
            }),
            self.root() is Some && safe_inputs(
                self.nodes_map(),
                (self.root()->0).0,
                container_size,
            ) ==> r is Ok,
            r is Err ==> self.root() is Some && exists|id: u64|
                {
                    &&& #[trigger] reachable(self.nodes_map(), (self.root()->0).0, id)
                    &&& (!self.nodes_map().contains_key(id) || exists|s: Size|
                        size_ok(s) && !node_resolves(self.nodes_map()[id], s))
                },
    {
        let mut results = RectMap::new();
        let root = match self.root_id {
            Some(root) => root,
            None => {
                return Ok(results);
            },
        };
        let ghost store = self.nodes_map();
        let mut stack: Vec<(NodeId, Size)> = Vec::new();
        stack.push((root, container_size));
        proof {
            lemma_reachable_root(store, root.0);
        }
        while stack.len() > 0
            invariant
                self.wf(),
                results.wf(),
                self.root() == Some(root),
                size_ok(container_size),
                // every mapped node is stored, correctly resolved, and linked
                forall|id: u64| #[trigger]
                    results@.contains_key(id) ==> store.contains_key(id) && (id != root.0
                        ==> exists|pid: u64|
                        {
                            &&& #[trigger] results@.contains_key(pid)
                            &&& store.contains_key(pid)
                            &&& store[pid].child_ids@.contains(NodeId(id))
                            &&& results@[id] == node_rect(
                                store[id],
                                Size { width: results@[pid].width, height: results@[pid].height },
                            )
                        }),
                results@.contains_key(root.0) ==> results@[root.0] == node_rect(
                    store[root.0],
                    container_size,
                ),
                // pending work is either the root or a child of a mapped node
                forall|k: int|
                    0 <= k < stack@.len() ==> {
                        let entry = #[trigger] stack@[k];
                        entry.0 == root && entry.1 == container_size || (exists|pid: u64|
                            {
                                &&& #[trigger] results@.contains_key(pid)
                                &&& store.contains_key(pid)
                                &&& store[pid].child_ids@.contains(entry.0)
                                &&& entry.1 == Size {
                                    width: results@[pid].width,
                                    height: results@[pid].height,
                                }
                            })
                    },
                forall|k: int| 0 <= k < stack@.len() ==> size_ok((#[trigger] stack@[k]).1),
                // mapped and pending identifiers are reachable
                forall|id: u64| #[trigger]
                    results@.contains_key(id) ==> reachable(store, root.0, id),
                forall|k: int|
                    0 <= k < stack@.len() ==> reachable(store, root.0, (#[trigger] stack@[k]).0.0),
                // every child of a mapped node is mapped or pending
                forall|id: u64, k: int|
                    #[trigger] results@.contains_key(id) && 0 <= k < store[id].child_ids@.len()
                        ==> results@.contains_key((#[trigger] store[id].child_ids@[k]).0)
                        || stack_has(stack@, store[id].child_ids@[k].0),
                // under safe inputs, offered sizes stay nonnegative
                safe_inputs(store, root.0, container_size) ==> forall|k: int|
                    0 <= k < stack@.len() ==> nonneg_size((#[trigger] stack@[k]).1),
                !results@.contains_key(root.0) ==> forall|k: int|
                    0 <= k < stack@.len() ==> (#[trigger] stack@[k]).0 == root && stack@[k].1
                        == container_size,
                !results@.contains_key(root.0) ==> stack@.len() > 0,
                store == self.nodes_map(),
                results.spec_len() <= self.spec_node_count(),
            decreases self.spec_node_count() - results.spec_len(), stack@.len(),
        {
            let ghost pre_stack = stack@;
            let (id, avail) = match stack.pop() {
                Some(entry) => entry,
                None => {
                    proof {
                        assert(false);
                    }
                    return Ok(results);
                },
            };
            proof {
                assert(pre_stack[pre_stack.len() - 1] == (id, avail));
                assert(reachable(store, root.0, id.0)) by {
                    assert(pre_stack[pre_stack.len() - 1].0.0 == id.0);
                }
            }
            if results.contains_key(id) {
                proof {
                    // the popped identifier is mapped, so its pending witness
                    // is no longer needed
                    assert forall|id2: u64, k2: int|
                        #[trigger] results@.contains_key(id2) && 0 <= k2
                            < store[id2].child_ids@.len() implies results@.contains_key(
                        (#[trigger] store[id2].child_ids@[k2]).0,
                    ) || stack_has(stack@, store[id2].child_ids@[k2].0) by {
                        let c = store[id2].child_ids@[k2].0;
                        if !results@.contains_key(c) {
                            assert(stack_has(pre_stack, c));
                            let j = choose|j: int|
                                0 <= j < pre_stack.len() && (#[trigger] pre_stack[j]).0.0 == c;
                            if j == pre_stack.len() - 1 {
                                assert(c == id.0);
                            } else {
                                assert(stack@[j] == pre_stack[j]);
                                assert(stack_has(stack@, c));
                            }
                        }
                    }
                }
                continue ;
            }
            let node = match self.get_node(id) {
                Some(n) => n,
                None => {
                    proof {
                        assert(store == self.nodes_map() && (self.root()->0).0 == root.0);
                        assert(!store.contains_key(id.0));
                        assert(!safe_inputs(store, root.0, container_size)) by {
                            if safe_inputs(store, root.0, container_size) {
                                assert(store.contains_key(id.0));
                            }
                        }
                        assert(exists|w: u64|
                            {
                                &&& #[trigger] reachable(store, root.0, w)
                                &&& (!store.contains_key(w) || exists|s: Size|
                                    size_ok(s) && !node_resolves(store[w], s))
                            }) by {
                            assert(reachable(store, root.0, id.0) && !store.contains_key(id.0));
                        }
                        assert(exists|w: u64|
                            {
                                &&& #[trigger] reachable(
                                    self.nodes_map(),
                                    (self.root()->0).0,
                                    w,
                                )
                                &&& (!self.nodes_map().contains_key(w) || exists|s: Size|
                                    size_ok(s) && !node_resolves(self.nodes_map()[w], s))
                            }) by {
                            assert(reachable(self.nodes_map(), (self.root()->0).0, id.0)
                                && !self.nodes_map().contains_key(id.0));
                        }
                    }
                    return Err(
                        VeloraError::Layout(
                            LayoutError::InvalidConstraints("layout node not found".to_owned()),
                        ),
                    );
                },
            };
            proof {
                lemma_node_ok_of_map(*self, id.0);
            }
            let rect = match resolve_node_rect(node, avail) {
                Ok(rect) => rect,
                Err(e) => {
                    proof {
                        assert(!node_resolves(store[id.0], avail));
                        assert(size_ok(avail)) by {
                            assert(size_ok(pre_stack[pre_stack.len() - 1].1));
                        }
                        assert(!safe_inputs(store, root.0, container_size)) by {
                            if safe_inputs(store, root.0, container_size) {
                                assert(nonneg_size(avail)) by {
                                    assert(nonneg_size(pre_stack[pre_stack.len() - 1].1));
                                }
                                assert(node_safe(store[id.0]));
                                assert(node_resolves(store[id.0], avail));
                            }
                        }
                        assert(store == self.nodes_map() && (self.root()->0).0 == root.0);
                        assert(exists|w: u64|
                            {
                                &&& #[trigger] reachable(
                                    self.nodes_map(),
                                    (self.root()->0).0,
                                    w,
                                )
                                &&& (!self.nodes_map().contains_key(w) || exists|s: Size|
                                    size_ok(s) && !node_resolves(self.nodes_map()[w], s))
                            }) by {
                            assert(reachable(self.nodes_map(), (self.root()->0).0, id.0)
                                && self.nodes_map().contains_key(id.0) && size_ok(avail)
                                && !node_resolves(self.nodes_map()[id.0], avail));
                        }
                    }
                    return Err(e);
                },
            };
            let ghost r0 = results@;
            results.insert_fresh(id, rect);
            proof {
                lemma_rect_map_len_bound(results, *self);
                // the popped entry justifies the new mapping; older mappings
                // keep their witnesses
                assert forall|id2: u64| #[trigger] results@.contains_key(id2) implies
                    store.contains_key(id2) && (id2 != root.0 ==> exists|pid: u64|
                        {
                            &&& #[trigger] results@.contains_key(pid)
                            &&& store.contains_key(pid)
                            &&& store[pid].child_ids@.contains(NodeId(id2))
                            &&& results@[id2] == node_rect(
                                store[id2],
                                Size { width: results@[pid].width, height: results@[pid].height },
                            )
                        }) by {
                    if id2 == id.0 {
                        if id2 != root.0 {
                            let entry = pre_stack[pre_stack.len() - 1];
                            assert(!(entry.0 == root && entry.1 == container_size) ==> exists|
                                pid: u64,
                            |
                                {
                                    &&& #[trigger] r0.contains_key(pid)
                                    &&& store.contains_key(pid)
                                    &&& store[pid].child_ids@.contains(entry.0)
                                    &&& entry.1 == Size {
                                        width: r0[pid].width,
                                        height: r0[pid].height,
                                    }
                                });
                            let pid = choose|pid: u64|
                                {
                                    &&& #[trigger] r0.contains_key(pid)
                                    &&& store.contains_key(pid)
                                    &&& store[pid].child_ids@.contains(entry.0)
                                    &&& entry.1 == Size {
                                        width: r0[pid].width,
                                        height: r0[pid].height,
                                    }
                                };
                            assert(pid != id.0);
                            assert(results@.contains_key(pid) && store.contains_key(pid)
                                && store[pid].child_ids@.contains(NodeId(id2)) && results@[id2]
                                == node_rect(
                                store[id2],
                                Size { width: results@[pid].width, height: results@[pid].height },
                            ));
                        }
                    } else {
                        assert(r0.contains_key(id2));
                        if id2 != root.0 {
                            let pid = choose|pid: u64|
                                {
                                    &&& #[trigger] r0.contains_key(pid)
                                    &&& store.contains_key(pid)
                                    &&& store[pid].child_ids@.contains(NodeId(id2))
                                    &&& r0[id2] == node_rect(
                                        store[id2],
                                        Size { width: r0[pid].width, height: r0[pid].height },
                                    )
                                };
                            assert(pid != id.0);
                            assert(results@.contains_key(pid) && store.contains_key(pid)
                                && store[pid].child_ids@.contains(NodeId(id2)) && results@[id2]
                                == node_rect(
                                store[id2],
                                Size { width: results@[pid].width, height: results@[pid].height },
                            ));
                        }
                    }
                }
                // pending entries keep their witnesses as well
                assert forall|j: int| 0 <= j < stack@.len() implies {
                    let entry = #[trigger] stack@[j];
                    entry.0 == root && entry.1 == container_size || (exists|pid: u64|
                        {
                            &&& #[trigger] results@.contains_key(pid)
                            &&& store.contains_key(pid)
                            &&& store[pid].child_ids@.contains(entry.0)
                            &&& entry.1 == Size {
                                width: results@[pid].width,
                                height: results@[pid].height,
                            }
                        })
                } by {
                    let entry = stack@[j];
                    if !(entry.0 == root && entry.1 == container_size) {
                        let pid = choose|pid: u64|
                            {
                                &&& #[trigger] r0.contains_key(pid)
                                &&& store.contains_key(pid)
                                &&& store[pid].child_ids@.contains(entry.0)
                                &&& entry.1 == Size { width: r0[pid].width, height: r0[pid].height }
                            };
                        assert(pid != id.0);
                        assert(results@.contains_key(pid) && store.contains_key(pid)
                            && store[pid].child_ids@.contains(entry.0) && entry.1 == Size {
                            width: results@[pid].width,
                            height: results@[pid].height,
                        });
                    }
                }
            }
            proof {
                // children of previously mapped nodes stay covered: the
                // popped entry's identifier is now mapped
                assert forall|id2: u64, k2: int|
                    #[trigger] results@.contains_key(id2) && 0 <= k2 < store[id2].child_ids@.len()
                        && id2 != id.0 implies results@.contains_key(
                    (#[trigger] store[id2].child_ids@[k2]).0,
                ) || stack_has(stack@, store[id2].child_ids@[k2].0) by {
                    let c = store[id2].child_ids@[k2].0;
                    if !results@.contains_key(c) {
                        assert(r0.contains_key(id2));
                        assert(stack_has(pre_stack, c));
                        let j = choose|j: int|
                            0 <= j < pre_stack.len() && (#[trigger] pre_stack[j]).0.0 == c;
                        if j == pre_stack.len() - 1 {
                            assert(c == id.0);
                        } else {
                            assert(stack@[j] == pre_stack[j]);
                            assert(stack_has(stack@, c));
                        }
                    }
                }
            }
            let child_count = node.child_ids.len();
            let mut k: usize = 0;
            let child_size = Size::new(rect.width, rect.height);
            proof {
                // under safe inputs the resolved size offered onward is
                // nonnegative
                assert(safe_inputs(store, root.0, container_size) ==> nonneg_size(child_size)) by {
                    if safe_inputs(store, root.0, container_size) {
                        assert(nonneg_size(avail)) by {
                            assert(nonneg_size(pre_stack[pre_stack.len() - 1].1));
                        }
                        assert(node_safe(store[id.0]));
                        assert(nonneg_size(
                            Size {
                                width: node_rect(store[id.0], avail).width,
                                height: node_rect(store[id.0], avail).height,
                            },
                        ));
                    }
                }
            }
            while k < child_count
                invariant
                    child_count == node.child_ids@.len(),
                    k <= child_count,
                    results@.contains_key(id.0),
                    results@.contains_key(root.0),
                    store.contains_key(id.0),
                    results@[id.0] == rect,
                    child_size == (Size { width: rect.width, height: rect.height }),
                    size_ok(child_size),
                    safe_inputs(store, root.0, container_size) ==> nonneg_size(child_size),
                    reachable(store, root.0, id.0),
                    *node == store[id.0],
                    forall|j: int| 0 <= j < stack@.len() ==> size_ok((#[trigger] stack@[j]).1),
                    safe_inputs(store, root.0, container_size) ==> forall|j: int|
                        0 <= j < stack@.len() ==> nonneg_size((#[trigger] stack@[j]).1),
                    forall|j: int|
                        0 <= j < stack@.len() ==> reachable(
                            store,
                            root.0,
                            (#[trigger] stack@[j]).0.0,
                        ),
                    forall|j: int|
                        0 <= j < stack@.len() ==> {
                            let entry = #[trigger] stack@[j];
                            entry.0 == root && entry.1 == container_size || (exists|pid: u64|
                                {
                                    &&& #[trigger] results@.contains_key(pid)
                                    &&& store.contains_key(pid)
                                    &&& store[pid].child_ids@.contains(entry.0)
                                    &&& entry.1 == Size {
                                        width: results@[pid].width,
                                        height: results@[pid].height,
                                    }
                                })
                        },
                    // children handled so far, and all other mapped nodes,
                    // stay covered
                    forall|id2: u64, k2: int|
                        #[trigger] results@.contains_key(id2) && 0 <= k2
                            < store[id2].child_ids@.len() && !(id2 == id.0 && k2 >= k)
                            ==> results@.contains_key((#[trigger] store[id2].child_ids@[k2]).0)
                            || stack_has(stack@, store[id2].child_ids@[k2].0),
                decreases child_count - k,
            {
                let ghost pre_push = stack@;
                let child = node.child_ids[k];
                stack.push((child, child_size));
                proof {
                    let ghost last = stack@.len() - 1;
                    assert(store[id.0].child_ids@.contains(child)) by {
                        assert(store[id.0].child_ids@[k as int] == child);
                    }
                    assert(results@.contains_key(id.0) && store.contains_key(id.0)
                        && store[id.0].child_ids@.contains(stack@[last].0) && stack@[last].1
                        == Size { width: results@[id.0].width, height: results@[id.0].height });
                    lemma_reachable_step(store, root.0, id.0, child.0);
                    assert(stack@[last].0.0 == child.0);
                    // coverage carries over the push
                    assert forall|id2: u64, k2: int|
                        #[trigger] results@.contains_key(id2) && 0 <= k2
                            < store[id2].child_ids@.len() && !(id2 == id.0 && k2 >= k + 1)
                            implies results@.contains_key(
                        (#[trigger] store[id2].child_ids@[k2]).0,
                    ) || stack_has(stack@, store[id2].child_ids@[k2].0) by {
                        let c = store[id2].child_ids@[k2].0;
                        if id2 == id.0 && k2 == k {
                            assert(stack@[last].0.0 == c);
                            assert(stack_has(stack@, c));
                        } else if !results@.contains_key(c) {
                            assert(stack_has(pre_push, c));
                            let j = choose|j: int|
                                0 <= j < pre_push.len() && (#[trigger] pre_push[j]).0.0 == c;
                            assert(stack@[j] == pre_push[j]);
                            assert(stack_has(stack@, c));
                        }
                    }
                }
                k = k + 1;
            }
        }
        proof {
            assert(results@.contains_key(root.0));
            assert forall|id2: u64, k2: int|
                #[trigger] results@.contains_key(id2) && store.contains_key(id2) && 0 <= k2
                    < store[id2].child_ids@.len() implies results@.contains_key(
                (#[trigger] store[id2].child_ids@[k2]).0,
            ) by {
                let c = store[id2].child_ids@[k2].0;
                if !results@.contains_key(c) {
                    assert(stack_has(stack@, c));
                }
            }
            assert forall|id2: u64| #[trigger] reachable(store, root.0, id2) implies
                results@.contains_key(id2) by {
                let path = choose|path: Seq<u64>| #[trigger]
                    is_child_path(store, path, root.0) && path.last() == id2;
                lemma_reachable_mapped(store, results@, root.0, path);
            }
        }
        Ok(results)
    }
}

/// The rectangle of one node under `avail`: the first rectangle of its
/// strategy, the available size when the strategy has no items, or the
/// box-model content size.
fn resolve_node_rect(node: &LayoutNode, avail: Size) -> (r: VeloraResult<Rect>)
    requires
        layout_node_ok(*node),
        size_ok(avail),
    ensures
        r is Ok <==> node_resolves(*node, avail),
        r is Ok ==> r->Ok_0 == node_rect(*node, avail) && coord_ok(r->Ok_0.width) && coord_ok(
            r->Ok_0.height,
        ),
        r is Err ==> r matches Err(VeloraError::Layout(LayoutError::InvalidConstraints(_))),
{
    match &node.flexbox {
        Some(flexbox) => {
            let rects = match flexbox.calculate_layout(avail) {
                Ok(rects) => rects,
                Err(_) => {
                    proof {
                        assert(false);
                    }
                    return Err(
                        VeloraError::Layout(
                            LayoutError::InvalidConstraints("flex layout failed".to_owned()),
                        ),
                    );
                },
            };
            if rects.len() > 0 {
                proof {
                    let items = flexbox.spec_items();
                    assert(crate::flexbox::flex_offset(
                        items,
                        flexbox.spec_container().direction,
                        0,
                    ) == 0);
                    assert(coord_ok(crate::flexbox::flex_item_size(items[0]).width));
                }
                Ok(rects[0])
            } else {
                Ok(Rect::new(0, 0, avail.width, avail.height))
            }
        },
        None => match &node.grid {
            Some(grid) => {
                let rects = match grid.calculate_layout(avail) {
                    Ok(rects) => rects,
                    Err(e) => {
                        return Err(e);
                    },
                };
                if rects.len() > 0 {
                    proof {
                        assert(0int % grid.spec_columns() == 0 && 0int / grid.spec_columns() == 0)
                            by (nonlinear_arith)
                            requires
                                grid.spec_columns() >= 1,
                        ;
                        crate::grid::lemma_cell_extent_in_range(
                            avail.width as int,
                            grid.spec_columns(),
                            grid.spec_container().column_gap as int,
                        );
                        crate::grid::lemma_cell_extent_in_range(
                            avail.height as int,
                            grid.spec_rows(),
                            grid.spec_container().row_gap as int,
                        );
                    }
                    Ok(rects[0])
                } else {
                    Ok(Rect::new(0, 0, avail.width, avail.height))
                }
            },
            None => {
                let content_size = match node.box_model.calculate_with_sizing(
                    BoxSizing::ContentBox,
                    avail,
                ) {
                    Ok(size) => size,
                    Err(e) => {
                        return Err(e);
                    },
                };
                Ok(Rect::new(0, 0, content_size.width, content_size.height))
            },
        },
    }
}

/// Every node stored in a well-formed tree has in-range geometry.
proof fn lemma_node_ok_of_map(t: LayoutTree, key: u64)
    requires
        t.wf(),
        t.nodes_map().contains_key(key),
    ensures
        layout_node_ok(t.nodes_map()[key]),
{
    lemma_umap_dom(t.nodes@, key);
    let i = choose|i: int| 0 <= i < t.nodes@.len() && t.nodes@[i].0 == key;
    lemma_umap_index(t.nodes@, i);
}

/// A rectangle map whose keys all come from the tree's store cannot hold more
/// entries than the store.
proof fn lemma_rect_map_len_bound(results: RectMap, tree: LayoutTree)
    requires
        results.wf(),
        tree.wf(),
        forall|id: u64| #[trigger] results@.contains_key(id) ==> tree.nodes_map().contains_key(id),
    ensures
        results.spec_len() <= tree.spec_node_count(),
{
    let a = results.entries@.map_values(|e: (u64, Rect)| e.0);
    let b = tree.nodes@.map_values(|e: (u64, LayoutNode)| e.0);
    assert forall|i: int| 0 <= i < a.len() implies b.contains(#[trigger] a[i]) by {
        let key = results.entries@[i].0;
        assert(a[i] == key);
        lemma_umap_dom(results.entries@, key);
        assert(results@.contains_key(key)) by {
            assert(results.entries@[i].0 == key);
        }
        assert(tree.nodes_map().contains_key(key));
        lemma_umap_dom(tree.nodes@, key);
        let k = choose|k: int| 0 <= k < tree.nodes@.len() && tree.nodes@[k].0 == key;
        assert(b[k] == key);
    }
    assert(forall|i: int, j: int| 0 <= i < j < a.len() ==> a[i] != a[j]) by {
        assert(forall|i: int| 0 <= i < a.len() ==> a[i] == results.entries@[i].0);
    }
    assert(forall|i: int, j: int| 0 <= i < j < b.len() ==> b[i] != b[j]) by {
        assert(forall|i: int| 0 <= i < b.len() ==> b[i] == tree.nodes@[i].0);
    }
    lemma_distinct_keys_len(a, b);
}

} // verus!
